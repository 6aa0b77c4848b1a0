//! Tests of the view-state reconciliation, navigation, and the scene
//! controller.

use cgmem::app::{Action, App, AppScene, Key};
use cgmem::file_proc::get_file_processor;
use cgmem::procs_scene::ProcsScene;
use cgmem::stats::stats;
use cgmem::cgroup::{CGroup, CGroupSortOrder};
use cgmem::help::{build_cgroup_tree_help_scene, build_procs_help_scene, HelpScene};
use cgmem::procs::{Proc, ProcSortOrder};
use cgmem::stat_choose::StatChooseScene;
use cgmem::table_view::ProcsTable;
use cgmem::tree_view::CGroupTree;

fn leaf(path: &[&str], stat: usize) -> CGroup {
    CGroup {
        path: path.iter().map(|s| String::from(*s)).collect(),
        error: None,
        stat,
        children: Vec::new(),
    }
}

fn node(path: &[&str], stat: usize, children: Vec<CGroup>) -> CGroup {
    CGroup {
        path: path.iter().map(|s| String::from(*s)).collect(),
        error: None,
        stat,
        children,
    }
}

fn proc_entry(pid: usize, cmd: &str) -> Proc {
    Proc { pid, cmd: String::from(cmd), stat: Ok(0) }
}

#[test]
fn selection_survives_reordering_rebuild() {
    let mut tree = CGroupTree::new();
    tree.build_tree(vec![leaf(&["a"], 1), leaf(&["b"], 2)]);
    // select the second row, the node at path "b"
    tree.first();
    tree.down();
    assert_eq!(tree.cgroup().unwrap().path(), &vec![String::from("b")]);
    // rebuild with the nodes swapped: "b" is now first, and stays selected
    tree.build_tree(vec![leaf(&["b"], 2), leaf(&["a"], 1)]);
    assert_eq!(tree.selected(), vec![0]);
    assert_eq!(tree.cgroup().unwrap().path(), &vec![String::from("b")]);
}

#[test]
fn selection_empties_when_the_path_disappears() {
    let mut tree = CGroupTree::new();
    tree.build_tree(vec![leaf(&["a"], 1), leaf(&["b"], 2)]);
    tree.first();
    assert!(tree.cgroup().is_some());
    tree.build_tree(vec![leaf(&["b"], 2)]);
    assert!(tree.cgroup().is_none());
    assert!(tree.selected().is_empty());
}

#[test]
fn expansion_survives_reordering_rebuild() {
    // a tree with a/b nested; expand a and a/b, then reload re-sorted
    let build = |first_a: bool| -> Vec<CGroup> {
        let a = node(&["a"], 1, vec![node(&["a", "b"], 2, vec![leaf(&["a", "b", "c"], 3)])]);
        let z = leaf(&["z"], 9);
        if first_a {
            vec![a, z]
        } else {
            vec![z, a]
        }
    };
    let mut tree = CGroupTree::new();
    tree.build_tree(build(true));
    // expand "a" (row 0), then "a/b"
    tree.first();
    tree.right();
    tree.down();
    tree.right();
    let visible = tree.visible();
    assert_eq!(visible.len(), 4);
    // reload with the order changed: both nodes stay expanded
    tree.build_tree(build(false));
    let visible = tree.visible();
    assert_eq!(visible.len(), 4);
    // "a" now sits at index 1 with its subtree open below it
    assert_eq!(visible[1], vec![1]);
    assert_eq!(visible[2], vec![1, 0]);
    assert_eq!(visible[3], vec![1, 0, 0]);
}

#[test]
fn collapsed_children_are_not_visible() {
    let mut tree = CGroupTree::new();
    tree.build_tree(vec![node(&["a"], 1, vec![leaf(&["a", "b"], 2)])]);
    // the single-root transition force-expands the root once
    assert_eq!(tree.visible().len(), 2);
    tree.first();
    tree.left();
    assert_eq!(tree.visible().len(), 1);
    tree.right();
    assert_eq!(tree.visible().len(), 2);
}

#[test]
fn left_moves_to_parent_when_collapsed() {
    let mut tree = CGroupTree::new();
    tree.build_tree(vec![node(&["a"], 1, vec![leaf(&["a", "b"], 2)])]);
    tree.first();
    tree.down();
    assert_eq!(tree.selected(), vec![0, 0]);
    tree.left();
    assert_eq!(tree.selected(), vec![0]);
}

#[test]
fn navigation_clamps_at_the_ends() {
    let mut tree = CGroupTree::new();
    tree.build_tree(vec![leaf(&["a"], 1), leaf(&["b"], 2), leaf(&["c"], 3)]);
    tree.first();
    assert!(tree.up().is_none());
    tree.last();
    assert_eq!(tree.selected(), vec![2]);
    assert!(tree.down().is_none());
    tree.close_all();
    assert_eq!(tree.visible().len(), 3);
}

#[test]
fn table_selection_follows_the_pid() {
    let mut table = ProcsTable::new();
    table.build_table(Ok(vec![proc_entry(10, "a"), proc_entry(20, "b"), proc_entry(30, "c")]));
    table.down();
    table.down();
    assert_eq!(table.selected(), Some(1));
    // pid 20 moves to the front; the selection follows it
    table.build_table(Ok(vec![proc_entry(20, "b"), proc_entry(10, "a")]));
    assert_eq!(table.selected(), Some(0));
    // pid 20 disappears; the selection empties
    table.build_table(Ok(vec![proc_entry(10, "a")]));
    assert_eq!(table.selected(), None);
}

#[test]
fn table_error_clears_the_rows() {
    let mut table = ProcsTable::new();
    table.build_table(Err(String::from("No such file")));
    assert_eq!(table.error.as_deref(), Some("No such file"));
    assert!(table.procs.is_empty());
}

#[test]
fn table_navigation_clamps() {
    let mut table = ProcsTable::new();
    table.build_table(Ok(vec![proc_entry(1, "a"), proc_entry(2, "b")]));
    table.home();
    assert_eq!(table.selected(), Some(0));
    assert!(table.up().is_none());
    table.end();
    assert_eq!(table.selected(), Some(1));
    assert!(table.down().is_none());
    table.reset();
    assert_eq!(table.selected(), None);
}

#[test]
fn help_scenes_scroll_within_bounds() {
    let mut help = build_cgroup_tree_help_scene();
    help.set_scroll_bounds(0, 2);
    assert!(help.key_event(Key::Up).is_none());
    assert!(help.key_event(Key::Down).is_some());
    assert!(help.key_event(Key::Down).is_some());
    assert!(help.key_event(Key::Down).is_none());
    assert_eq!(help.cur_scroll_y, 2);
    match help.key_event(Key::Char('q')) {
        Some(v) => assert_eq!(v, vec![Action::Scene(AppScene::CGroupTree)]),
        None => panic!("expected a scene change"),
    }
    let other: HelpScene = build_procs_help_scene();
    assert_eq!(other.lines.len(), 19);
    assert_eq!(other.max_key, "Down Arrow".len());
}

#[test]
fn stat_chooser_moves_and_selects() {
    let mut chooser = StatChooseScene::new(17);
    assert!(chooser.key_event(Key::Enter).is_none());
    chooser.set_stat(2);
    chooser.key_event(Key::Down);
    chooser.key_event(Key::Down);
    chooser.key_event(Key::Up);
    match chooser.key_event(Key::Enter) {
        Some(v) => {
            assert_eq!(v, vec![Action::Stat(3), Action::Scene(AppScene::CGroupTree)]);
        }
        None => panic!("expected a selection"),
    }
}

#[test]
fn controller_applies_actions_in_order() {
    let mut app = App::new(0);
    assert!(app.is_running());
    assert!(app.reload_needed());
    app.clear_reload();
    assert!(!app.reload_needed());

    app.process_actions(vec![Action::Stat(3), Action::Scene(AppScene::Procs), Action::Reload]);
    assert_eq!(app.current_scene(), AppScene::Procs);
    assert!(app.reload_needed());
    assert_eq!(app.cgroup_tree_scene.stat, 3);
    assert_eq!(app.procs_scene.stat, 3);
    assert_eq!(app.stat_choose_scene.state, Some(3));

    app.process_actions(vec![Action::Exit]);
    assert!(!app.is_running());
}

#[test]
fn controller_ignores_an_out_of_range_statistic() {
    let mut app = App::new(0);
    app.process_actions(vec![Action::Stat(99)]);
    assert_eq!(app.cgroup_tree_scene.stat, 0);
}

#[test]
fn stat_sort_falls_back_to_pid_without_a_process_analog() {
    let mut app = App::new(0);
    // statistic 3 (file cache) has no per-process analog
    app.process_actions(vec![
        Action::Stat(3),
        Action::ProcSort(ProcSortOrder::StatAsc),
    ]);
    assert_eq!(app.procs_scene.sort, ProcSortOrder::PidAsc);
    // statistic 0 has one: the requested order comes back into force
    app.process_actions(vec![Action::Stat(0)]);
    assert_eq!(app.procs_scene.sort, ProcSortOrder::StatAsc);
}

#[test]
fn proc_cgroup_action_strips_the_self_entry() {
    let mut app = App::new(0);
    app.process_actions(vec![Action::ProcCGroup(vec![
        String::from("a"),
        String::from("<self>"),
    ])]);
    assert_eq!(app.procs_scene.cgroup, vec![String::from("a")]);
}

#[test]
fn catalog_definitions_all_parse() {
    for s in stats().iter() {
        assert!(get_file_processor(s.def()).is_some(), "definition must parse: {}", s.def());
    }
}

#[test]
fn help_builders_fix_their_content() {
    let tree_help = build_cgroup_tree_help_scene();
    assert_eq!(tree_help.lines.len(), 23);
    assert_eq!(tree_help.max_key, "Right Arrow".len());
    match &tree_help.lines[0] {
        cgmem::help::HelpLine::Line(l) => {
            assert_eq!(l, "Key bindings for cgroup memory display:");
        }
        _ => panic!("expected a text line"),
    }
    match &tree_help.lines[2] {
        cgmem::help::HelpLine::Key(k, d) => {
            assert_eq!(k, "Up Arrow");
            assert_eq!(d, "Move selection up.");
        }
        _ => panic!("expected a key line"),
    }
}

#[test]
fn proc_stat_stepping_skips_entries_without_an_analog() {
    let catalog = stats();
    let mut scene = ProcsScene::new();
    // stepping up from the first statistic lands on the next with a
    // per-process analog
    match scene.key_event(Key::Char(']'), &catalog) {
        Some(v) => assert_eq!(v, vec![Action::Stat(1), Action::Reload]),
        None => panic!("expected a statistic step"),
    }
    // stepping down wraps past the analog-free tail of the catalog
    match scene.key_event(Key::Char('['), &catalog) {
        Some(v) => assert_eq!(v, vec![Action::Stat(13), Action::Reload]),
        None => panic!("expected a statistic step"),
    }
}

#[test]
fn tree_scene_keys_produce_actions() {
    let mut app = App::new(0);
    // 's' asks for a stat sort toggle and a reload
    assert!(app.key_event(Key::Char('s')));
    assert_eq!(app.cgroup_tree_scene.sort, CGroupSortOrder::StatAsc);
    assert!(app.reload_needed());
    // 'z' switches to the chooser
    app.key_event(Key::Char('z'));
    assert_eq!(app.current_scene(), AppScene::StatChoose);
    // escape goes back to the tree
    app.key_event(Key::Esc);
    assert_eq!(app.current_scene(), AppScene::CGroupTree);
    // 'q' exits
    app.key_event(Key::Char('q'));
    assert!(!app.is_running());
}
