//! Plans how ingested directory trees are packed into layers of bounded size.
//!
//! A plan is made in three steps. A walk over each root yields one record per
//! entry ([`walk`]). Within each root, the records that share an inode with
//! an earlier one become hard links to the first of them ([`links`]). Then
//! the records of all roots are packed in order into layers of at most so
//! many bytes; a file that does not fit is cut where its layer is full
//! ([`packing`]). [`planner`] holds the planner that runs the last two steps.
//! [`coverage`] and [`budget`] state what holds of every plan.

pub mod budget;
pub mod coverage;
pub mod file;
pub mod links;
pub mod packing;
pub mod planner;
pub mod walk;

pub use crate::file::ConexFile;
pub use crate::planner::ConexPlanner;
