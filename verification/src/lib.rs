//! A verified core for a cgroup-v2 memory statistics browser.
//!
//! The library contains the logic of the tool: the stat-definition
//! parser and value extractors, the cgroup tree loader with bottom-up
//! aggregation, the process lister, the view-state reconciliation for
//! the tree and table views, and the scene controller.  All file
//! reading and terminal drawing lives outside the library; the loaders
//! work on plain in-memory snapshots of the directories they inspect.

pub mod app;
pub mod cgroup;
pub mod file_proc;
pub mod fsdata;
pub mod help;
pub mod procs;
pub mod procs_scene;
pub mod sorting;
pub mod stat_choose;
pub mod stats;
pub mod table_view;
pub mod text;
pub mod tree_scene;
pub mod tree_view;
