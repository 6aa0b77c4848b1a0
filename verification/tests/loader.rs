//! Tests of the cgroup tree loader, its aggregation, and the process
//! lister.

use cgmem::cgroup::{get_cgroup2_mount_point, load_cgroups, CGroup, CGroupSortOrder};
use cgmem::fsdata::{FsDir, FsFile};
use cgmem::procs::{load_pids, load_procs, Proc, ProcData, ProcSortOrder};
use cgmem::stats::{Stat, StatType, ProcStatType};

fn file(name: &str, lines: &[&str]) -> FsFile {
    FsFile {
        name: String::from(name),
        content: Ok(lines.iter().map(|l| String::from(*l)).collect()),
    }
}

fn dir(name: &str, files: Vec<FsFile>, subdirs: Vec<FsDir>) -> FsDir {
    FsDir { name: String::from(name), files, subdirs, error: None }
}

fn mem_stat() -> Stat {
    Stat::new(
        "memory.current",
        "Current Total",
        "Current total memory usage including descendents",
        StatType::MemQtyCumul,
        "status/=/1/VmRSS:/2",
        "RSS",
        ProcStatType::MemQtyKb,
    )
}

fn count_stat() -> Stat {
    Stat::new("cgroup.procs/#", "Processes", "Number of processes.", StatType::Qty, "", "", ProcStatType::Absent)
}

fn path_of(cg: &CGroup) -> Vec<String> {
    cg.path().clone()
}

#[test]
fn cumulative_tree_synthesizes_self_node() {
    // root/memory.current = 300, child1 = 100, child2 = 150
    let root = dir(
        "",
        vec![file("memory.current", &["300"])],
        vec![
            dir("child1", vec![file("memory.current", &["100"])], vec![]),
            dir("child2", vec![file("memory.current", &["150"])], vec![]),
        ],
    );
    let forest = load_cgroups(&root, &mem_stat(), CGroupSortOrder::StatAsc);
    assert_eq!(forest.len(), 1);
    let top = &forest[0];
    assert_eq!(top.stat(), 300);
    assert!(top.error().is_none());
    let kids = top.children();
    assert_eq!(kids.len(), 3);
    // ascending by stat: the <self> shortfall of 50, then 100, then 150
    assert_eq!(kids[0].stat(), 50);
    assert_eq!(path_of(&kids[0]), vec![String::from("<self>")]);
    assert_eq!(kids[1].stat(), 100);
    assert_eq!(path_of(&kids[1]), vec![String::from("child1")]);
    assert_eq!(kids[2].stat(), 150);
    assert_eq!(path_of(&kids[2]), vec![String::from("child2")]);
    // the children sum back to the node's own value
    assert_eq!(kids.iter().map(|c| c.stat()).sum::<usize>(), 300);
}

#[test]
fn cumulative_tree_descending_is_reverse_of_ascending() {
    let root = dir(
        "",
        vec![file("memory.current", &["300"])],
        vec![
            dir("child1", vec![file("memory.current", &["100"])], vec![]),
            dir("child2", vec![file("memory.current", &["150"])], vec![]),
        ],
    );
    let asc = load_cgroups(&root, &mem_stat(), CGroupSortOrder::StatAsc);
    let dsc = load_cgroups(&root, &mem_stat(), CGroupSortOrder::StatDsc);
    let up: Vec<usize> = asc[0].children().iter().map(|c| c.stat()).collect();
    let down: Vec<usize> = dsc[0].children().iter().map(|c| c.stat()).collect();
    let mut reversed = up.clone();
    reversed.reverse();
    assert_eq!(up, vec![50, 100, 150]);
    assert_eq!(down, reversed);
}

#[test]
fn cumulative_no_self_node_when_children_cover_it() {
    // concurrently changing counters: children sum past the parent
    let root = dir(
        "",
        vec![file("memory.current", &["100"])],
        vec![dir("child1", vec![file("memory.current", &["150"])], vec![])],
    );
    let forest = load_cgroups(&root, &mem_stat(), CGroupSortOrder::NameAsc);
    let top = &forest[0];
    assert_eq!(top.stat(), 100);
    assert_eq!(top.children().len(), 1);
    assert_eq!(top.children()[0].stat(), 150);
}

#[test]
fn quantity_tree_promotes_own_value_into_self_node() {
    // root holds 2 processes itself, its child 3
    let root = dir(
        "",
        vec![file("cgroup.procs", &["1", "2"])],
        vec![dir("child", vec![file("cgroup.procs", &["3", "4", "5"])], vec![])],
    );
    let forest = load_cgroups(&root, &count_stat(), CGroupSortOrder::StatAsc);
    let top = &forest[0];
    assert_eq!(top.stat(), 5);
    let kids = top.children();
    assert_eq!(kids.len(), 2);
    assert_eq!(kids[0].stat(), 2);
    assert_eq!(path_of(&kids[0]), vec![String::from("<self>")]);
    assert_eq!(kids[1].stat(), 3);
}

#[test]
fn quantity_tree_without_children_keeps_local_value() {
    let root = dir("", vec![file("cgroup.procs", &["1", "2"])], vec![]);
    let forest = load_cgroups(&root, &count_stat(), CGroupSortOrder::NameAsc);
    assert_eq!(forest[0].stat(), 2);
    assert!(forest[0].children().is_empty());
}

#[test]
fn unreadable_subtree_becomes_error_leaf() {
    let broken = FsDir {
        name: String::from("locked"),
        files: vec![],
        subdirs: vec![],
        error: Some(String::from("Permission denied (os error 13)")),
    };
    let root = dir("", vec![file("memory.current", &["10"])], vec![broken]);
    let forest = load_cgroups(&root, &mem_stat(), CGroupSortOrder::NameAsc);
    let top = &forest[0];
    assert_eq!(top.stat(), 10);
    let kid = top
        .children()
        .iter()
        .find(|c| path_of(c) == vec![String::from("locked")])
        .expect("the unreadable subtree is still listed");
    assert_eq!(kid.error().as_deref(), Some("Permission denied (os error 13)"));
    assert_eq!(kid.stat(), 0);
}

#[test]
fn missing_controller_upgrades_the_error() {
    let child = dir("nomem", vec![file("cgroup.controllers", &["cpu io"])], vec![]);
    let root = dir("", vec![file("memory.current", &["10"])], vec![child]);
    let forest = load_cgroups(&root, &mem_stat(), CGroupSortOrder::NameAsc);
    let kid = forest[0]
        .children()
        .iter()
        .find(|c| path_of(c) == vec![String::from("nomem")])
        .expect("the child without the controller is still listed");
    assert_eq!(kid.error().as_deref(), Some("No memory controller"));
}

#[test]
fn broken_root_with_usable_children_yields_the_children() {
    // no memory.current at the root, but a readable child
    let root = dir(
        "",
        vec![],
        vec![dir("child", vec![file("memory.current", &["25"])], vec![])],
    );
    let forest = load_cgroups(&root, &mem_stat(), CGroupSortOrder::NameAsc);
    assert_eq!(forest.len(), 1);
    assert_eq!(path_of(&forest[0]), vec![String::from("child")]);
    assert_eq!(forest[0].stat(), 25);
}

#[test]
fn unrecognized_definition_yields_one_error_node() {
    let bad = Stat::new("f/?", "Bad", "Bad", StatType::MemQtyCumul, "", "", ProcStatType::Absent);
    let root = dir("", vec![], vec![]);
    let forest = load_cgroups(&root, &bad, CGroupSortOrder::NameAsc);
    assert_eq!(forest.len(), 1);
    assert_eq!(forest[0].error().as_deref(), Some("Unrecognized statistic"));
}

#[test]
fn name_sort_orders_by_path() {
    let root = dir(
        "",
        vec![file("memory.current", &["0"])],
        vec![
            dir("beta", vec![file("memory.current", &["1"])], vec![]),
            dir("alpha", vec![file("memory.current", &["2"])], vec![]),
        ],
    );
    let forest = load_cgroups(&root, &mem_stat(), CGroupSortOrder::NameAsc);
    let names: Vec<Vec<String>> = forest[0].children().iter().map(path_of).collect();
    assert_eq!(names[0], vec![String::from("alpha")]);
    assert_eq!(names[1], vec![String::from("beta")]);
    let forest = load_cgroups(&root, &mem_stat(), CGroupSortOrder::NameDsc);
    let names: Vec<Vec<String>> = forest[0].children().iter().map(path_of).collect();
    assert_eq!(names[0], vec![String::from("beta")]);
    assert_eq!(names[1], vec![String::from("alpha")]);
}

#[test]
fn load_pids_reads_and_merges() {
    let child = dir("sub", vec![file("cgroup.procs", &["99"])], vec![]);
    let root = dir("", vec![file("cgroup.procs", &["12", "34"])], vec![child]);
    assert_eq!(load_pids(&root, false, false).unwrap(), vec![12, 34]);
    assert_eq!(load_pids(&root, false, true).unwrap(), vec![12, 34, 99]);
}

#[test]
fn load_pids_bad_line_fails_the_listing() {
    let root = dir("", vec![file("cgroup.procs", &["12", "oops"])], vec![]);
    assert_eq!(load_pids(&root, false, false).unwrap_err(), "Invalid process id");
}

#[test]
fn load_pids_swallows_failing_descendants() {
    let broken = dir("sub", vec![file("cgroup.procs", &["bad"])], vec![]);
    let root = dir("", vec![file("cgroup.procs", &["1"])], vec![broken]);
    assert_eq!(load_pids(&root, false, true).unwrap(), vec![1]);
}

#[test]
fn load_pids_reads_threads_file() {
    let root = dir("", vec![file("cgroup.threads", &["7", "8"])], vec![]);
    assert_eq!(load_pids(&root, true, false).unwrap(), vec![7, 8]);
}

#[test]
fn process_entries_resolve_commands() {
    // pid 12 has a command line with NUL separators; pid 34 only a comm
    let p12 = ProcData {
        pid: 12,
        dir: dir("12", vec![file("cmdline", &["foo\0bar\0"])], vec![]),
    };
    let p34 = ProcData {
        pid: 34,
        dir: dir("34", vec![file("comm", &["bash"])], vec![]),
    };
    let procs = load_procs(&vec![p12, p34], &count_stat(), ProcSortOrder::PidAsc);
    assert_eq!(procs.len(), 2);
    assert_eq!(procs[0].pid, 12);
    assert_eq!(procs[0].cmd, "foo bar");
    assert_eq!(*procs[0].stat.as_ref().unwrap(), 0);
    assert_eq!(procs[1].pid, 34);
    assert_eq!(procs[1].cmd, "[bash]");
}

#[test]
fn process_entry_unknown_command() {
    let p = ProcData { pid: 5, dir: dir("5", vec![], vec![]) };
    let procs = load_procs(&vec![p], &count_stat(), ProcSortOrder::PidAsc);
    assert_eq!(procs[0].cmd, "<Unknown>");
}

#[test]
fn process_stat_scales_kilobytes() {
    let p = ProcData {
        pid: 9,
        dir: dir(
            "9",
            vec![file("cmdline", &["x"]), file("status", &["VmRSS:  64 kB"])],
            vec![],
        ),
    };
    let procs = load_procs(&vec![p], &mem_stat(), ProcSortOrder::PidAsc);
    assert_eq!(*procs[0].stat.as_ref().unwrap(), 64 * 1024);
}

#[test]
fn process_sorting_by_pid_cmd_and_stat() {
    let mk = |pid: usize, cmd: &str| ProcData {
        pid,
        dir: dir("p", vec![file("cmdline", &[cmd])], vec![]),
    };
    let data = vec![mk(3, "cc"), mk(1, "bb"), mk(2, "aa")];
    let by_pid: Vec<usize> =
        load_procs(&data, &count_stat(), ProcSortOrder::PidAsc).iter().map(|p| p.pid).collect();
    assert_eq!(by_pid, vec![1, 2, 3]);
    let by_pid_dsc: Vec<usize> =
        load_procs(&data, &count_stat(), ProcSortOrder::PidDsc).iter().map(|p| p.pid).collect();
    assert_eq!(by_pid_dsc, vec![3, 2, 1]);
    let by_cmd: Vec<String> = load_procs(&data, &count_stat(), ProcSortOrder::CmdAsc)
        .iter()
        .map(|p| p.cmd.clone())
        .collect();
    assert_eq!(by_cmd, vec!["aa", "bb", "cc"]);
}

#[test]
fn process_sort_is_stable_on_ties() {
    // all stats equal: the input order survives, in both directions
    let mk = |pid: usize| ProcData { pid, dir: dir("p", vec![file("cmdline", &["x"])], vec![]) };
    let data = vec![mk(30), mk(10), mk(20)];
    let asc: Vec<usize> =
        load_procs(&data, &count_stat(), ProcSortOrder::StatAsc).iter().map(|p| p.pid).collect();
    let dsc: Vec<usize> =
        load_procs(&data, &count_stat(), ProcSortOrder::StatDsc).iter().map(|p| p.pid).collect();
    assert_eq!(asc, vec![30, 10, 20]);
    assert_eq!(dsc, vec![30, 10, 20]);
}

#[test]
fn mount_point_discovery() {
    let mounts = vec![
        String::from("sysfs /sys sysfs rw,nosuid 0 0"),
        String::from("cgroup2 /sys/fs/cgroup cgroup2 rw,nosuid 0 0"),
    ];
    assert_eq!(get_cgroup2_mount_point(&mounts).as_deref(), Some("/sys/fs/cgroup"));
    let none = vec![String::from("sysfs /sys sysfs rw 0 0")];
    assert!(get_cgroup2_mount_point(&none).is_none());
    // a mount line whose filesystem type is its last column still matches
    let bare = vec![String::from("a b cgroup2")];
    assert_eq!(get_cgroup2_mount_point(&bare).as_deref(), Some("b"));
}

#[test]
fn proc_type_is_plain_data() {
    let p = Proc { pid: 1, cmd: String::from("x"), stat: Ok(2) };
    assert_eq!(p.pid, 1);
}
