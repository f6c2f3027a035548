use conex_planner::links::resolve_hard_links;
use conex_planner::{ConexFile, ConexPlanner};
use std::path::PathBuf;

fn entry(name: &str, inode: u64) -> ConexFile {
    ConexFile {
        path: PathBuf::from("/srv/tree").join(name),
        relative_path: PathBuf::from(name),
        size: 5,
        inode,
        hard_link_to: None,
        ctime_nsec: -3,
        start_offset: None,
        chunk_size: None,
    }
}

#[test]
fn later_records_of_an_inode_link_to_the_first() {
    let files = vec![
        entry("a", 1),
        entry("b", 2),
        entry("c", 1),
        entry("d", 3),
        entry("e", 2),
        entry("f", 1),
    ];
    let out = resolve_hard_links(&files);
    assert_eq!(out.len(), 6);
    let targets: Vec<Option<PathBuf>> = out.iter().map(|f| f.hard_link_to.clone()).collect();
    assert_eq!(
        targets,
        vec![
            None,
            None,
            Some(PathBuf::from("a")),
            None,
            Some(PathBuf::from("b")),
            Some(PathBuf::from("a")),
        ]
    );
}

#[test]
fn resolution_changes_link_targets_only() {
    let files = vec![entry("a", 1), entry("b", 1)];
    let out = resolve_hard_links(&files);
    for k in 0..2 {
        assert_eq!(out[k].path, files[k].path);
        assert_eq!(out[k].relative_path, files[k].relative_path);
        assert_eq!(out[k].size, 5);
        assert_eq!(out[k].inode, 1);
        assert_eq!(out[k].ctime_nsec, -3);
        assert_eq!(out[k].start_offset, None);
        assert_eq!(out[k].chunk_size, None);
    }
    assert_eq!(files[1].hard_link_to, None);
}

#[test]
fn each_inode_has_one_owner() {
    let inodes = [4u64, 9, 4, 4, 2, 9, 7, 2, 4];
    let mut files = Vec::new();
    for (k, inode) in inodes.iter().enumerate() {
        files.push(entry(&format!("n{}", k), *inode));
    }
    let out = resolve_hard_links(&files);
    for inode in [2u64, 4, 7, 9] {
        let owners: Vec<&ConexFile> = out
            .iter()
            .filter(|f| f.inode == inode && f.hard_link_to.is_none())
            .collect();
        assert_eq!(owners.len(), 1);
        for record in out.iter().filter(|f| f.inode == inode) {
            if record.relative_path != owners[0].relative_path {
                assert_eq!(
                    record.hard_link_to,
                    Some(owners[0].relative_path.clone())
                );
            }
        }
    }
    assert_eq!(out[0].hard_link_to, None);
    assert_eq!(out[1].hard_link_to, None);
    assert_eq!(out[4].hard_link_to, None);
    assert_eq!(out[6].hard_link_to, None);
}

#[test]
fn link_target_given_with_a_first_record_stays() {
    let mut first = entry("a", 1);
    first.hard_link_to = Some(PathBuf::from("elsewhere"));
    let mut second = entry("b", 1);
    second.hard_link_to = Some(PathBuf::from("stale"));
    let out = resolve_hard_links(&vec![first, second]);
    assert_eq!(out[0].hard_link_to, Some(PathBuf::from("elsewhere")));
    assert_eq!(out[1].hard_link_to, Some(PathBuf::from("a")));
}

#[test]
fn no_records_resolve_to_none() {
    assert_eq!(resolve_hard_links(&Vec::new()).len(), 0);
}

#[test]
fn links_are_found_within_a_root_only() {
    let mut planner = ConexPlanner::default();
    planner.split_threshold = 1000;
    planner.ingest_dir("one", vec![entry("a", 1), entry("b", 1)]);
    planner.ingest_dir("two", vec![entry("c", 1), entry("d", 1)]);
    let plan = planner.generate_plan();
    assert_eq!(plan.len(), 1);
    let layer = &plan[0].1;
    assert_eq!(layer.len(), 4);
    assert_eq!(layer[0].hard_link_to, None);
    assert_eq!(layer[1].hard_link_to, Some(PathBuf::from("a")));
    assert_eq!(layer[2].hard_link_to, None);
    assert_eq!(layer[3].hard_link_to, Some(PathBuf::from("c")));
}
