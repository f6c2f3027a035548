use conex_planner::walk::{FoundEntry, TreeWalk};
use conex_planner::ConexPlanner;
use std::path::PathBuf;

fn found(name: &str, is_dir: bool, is_symlink: bool) -> FoundEntry {
    FoundEntry {
        path: PathBuf::from("/base").join(name),
        relative_path: PathBuf::from(name),
        size: 11,
        inode: 77,
        ctime_nsec: 123_456_789,
        is_dir,
        is_symlink,
    }
}

#[test]
fn walk_starts_with_its_root() {
    let mut walk = TreeWalk::new(PathBuf::new());
    assert_eq!(walk.next_dir(), Some(PathBuf::new()));
    assert_eq!(walk.next_dir(), None);
    assert_eq!(walk.finish().len(), 0);
}

#[test]
fn directories_are_read_in_the_order_found() {
    let mut walk = TreeWalk::new(PathBuf::from("top"));
    assert_eq!(walk.next_dir(), Some(PathBuf::from("top")));
    walk.visit(found("a", true, false));
    walk.visit(found("file", false, false));
    walk.visit(found("b", true, false));
    assert_eq!(walk.next_dir(), Some(PathBuf::from("a")));
    walk.visit(found("a/deep", true, false));
    walk.visit(found("a/leaf", false, false));
    assert_eq!(walk.next_dir(), Some(PathBuf::from("b")));
    assert_eq!(walk.next_dir(), Some(PathBuf::from("a/deep")));
    assert_eq!(walk.next_dir(), None);
    let names: Vec<PathBuf> = walk
        .finish()
        .iter()
        .map(|f| f.relative_path.clone())
        .collect();
    assert_eq!(
        names,
        vec![
            PathBuf::from("a"),
            PathBuf::from("file"),
            PathBuf::from("b"),
            PathBuf::from("a/deep"),
            PathBuf::from("a/leaf"),
        ]
    );
}

#[test]
fn symbolic_links_are_recorded_and_not_walked_into() {
    let mut walk = TreeWalk::new(PathBuf::new());
    assert_eq!(walk.next_dir(), Some(PathBuf::new()));
    walk.visit(found("link_to_dir", true, true));
    walk.visit(found("link_to_file", false, true));
    assert_eq!(walk.next_dir(), None);
    let files = walk.finish();
    assert_eq!(files.len(), 2);
    assert_eq!(files[0].relative_path, PathBuf::from("link_to_dir"));
    assert_eq!(files[1].relative_path, PathBuf::from("link_to_file"));
}

#[test]
fn record_holds_what_was_found() {
    let mut walk = TreeWalk::new(PathBuf::new());
    walk.visit(found("x", false, false));
    let files = walk.finish();
    assert_eq!(files.len(), 1);
    assert_eq!(files[0].path, PathBuf::from("/base/x"));
    assert_eq!(files[0].relative_path, PathBuf::from("x"));
    assert_eq!(files[0].size, 11);
    assert_eq!(files[0].inode, 77);
    assert_eq!(files[0].ctime_nsec, 123_456_789);
    assert_eq!(files[0].hard_link_to, None);
    assert_eq!(files[0].start_offset, None);
    assert_eq!(files[0].chunk_size, None);
}

#[test]
fn ingested_roots_are_kept_in_order() {
    let mut planner = ConexPlanner::default();
    let mut walk = TreeWalk::new(PathBuf::new());
    walk.visit(found("x", false, false));
    planner.ingest_dir("/first", walk.finish());
    planner.ingest_dir("/second", Vec::new());
    assert_eq!(planner.split_threshold, 536_870_912);
    assert_eq!(planner.layer_to_files.len(), 2);
    assert_eq!(planner.layer_to_files[0].0, "/first");
    assert_eq!(planner.layer_to_files[0].1.len(), 1);
    assert_eq!(planner.layer_to_files[0].1[0].relative_path, PathBuf::from("x"));
    assert_eq!(planner.layer_to_files[1].0, "/second");
    assert_eq!(planner.layer_to_files[1].1.len(), 0);
}
