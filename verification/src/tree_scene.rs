//! The cgroup tree scene: its piece of the shared configuration (active
//! statistic and sort order), its view state, and its input handling,
//! which turns keys into navigation and actions.

use vstd::prelude::*;

use crate::app::{Action, AppScene, Key, PollResult};
use crate::cgroup::{forest_of, load_cgroups, CGroup, CGroupSortOrder};
use crate::file_proc::{fp_matches_def, fp_wf, parse_ok, FileProcessor};
use crate::fsdata::FsDir;
use crate::procs::ProcSortOrder;
use crate::stats::Stat;
use crate::tree_view::{
    node_at, tree_closed_all, tree_first, tree_last, tree_left, tree_moved_by, tree_rebuilt,
    tree_right, CGroupTree,
};

verus! {

/// The tree scene's state.
pub struct CGroupTreeScene {
    pub tree: CGroupTree,
    pub sort: CGroupSortOrder,
    pub stat: usize,
}

/// The next statistic when stepping with `]` (up) or `[` (down), wrapping
/// around the catalog.
pub open spec fn next_stat_index(stat: int, up: bool, nstats: int) -> int {
    if up {
        (stat + 1) % nstats
    } else if stat == 0 {
        nstats - 1
    } else {
        stat - 1
    }
}

/// The cgroup order a process order translates to: statistic orders carry
/// over, command orders become name orders, id orders leave it alone.
pub open spec fn cgroup_sort_of_proc(sort: ProcSortOrder, cur: CGroupSortOrder) -> CGroupSortOrder {
    match sort {
        ProcSortOrder::StatAsc => CGroupSortOrder::StatAsc,
        ProcSortOrder::StatDsc => CGroupSortOrder::StatDsc,
        ProcSortOrder::CmdAsc => CGroupSortOrder::NameAsc,
        ProcSortOrder::CmdDsc => CGroupSortOrder::NameDsc,
        _ => cur,
    }
}

/// How one key transforms the tree scene.  The scene's own configuration
/// never changes here (configuration changes travel as actions); the
/// navigation keys move the view state, and the rest yield action lists.
pub open spec fn tree_scene_key_event(
    o: CGroupTreeScene,
    key: Key,
    nstats: int,
    n: CGroupTreeScene,
    r: PollResult,
) -> bool {
    &&& n.sort == o.sort
    &&& n.stat == o.stat
    &&& match key {
                Key::Esc => r matches Some(v) && v@ == seq![Action::Exit] && n.tree
                    == o.tree,
                Key::Char(c) => {
                    if c == 'q' {
                        r matches Some(v) && v@ == seq![Action::Exit] && n.tree == o.tree
                    } else if c == 'r' {
                        r matches Some(v) && v@ == seq![Action::Reload] && n.tree == o.tree
                    } else if c == 'c' {
                        tree_closed_all(o.tree, n.tree, r)
                    } else if c == 'n' {
                        r matches Some(v) && v@ == seq![
                            Action::CGroupSort(
                                if o.sort == CGroupSortOrder::NameAsc {
                                    CGroupSortOrder::NameDsc
                                } else {
                                    CGroupSortOrder::NameAsc
                                },
                            ),
                            Action::Reload,
                        ] && n.tree == o.tree
                    } else if c == 's' {
                        r matches Some(v) && v@ == seq![
                            Action::CGroupSort(
                                if o.sort == CGroupSortOrder::StatAsc {
                                    CGroupSortOrder::StatDsc
                                } else {
                                    CGroupSortOrder::StatAsc
                                },
                            ),
                            Action::Reload,
                        ] && n.tree == o.tree
                    } else if c == 'z' {
                        r matches Some(v) && v@ == seq![Action::Scene(AppScene::StatChoose)]
                            && n.tree == o.tree
                    } else if c == 'h' {
                        r matches Some(v) && v@ == seq![Action::Scene(AppScene::CgroupTreeHelp)]
                            && n.tree == o.tree
                    } else if c == '[' {
                        r matches Some(v) && v@ == seq![
                            Action::Stat(
                                next_stat_index(o.stat as int, false, nstats)
                                    as usize,
                            ),
                            Action::Reload,
                        ] && n.tree == o.tree
                    } else if c == ']' {
                        r matches Some(v) && v@ == seq![
                            Action::Stat(
                                next_stat_index(o.stat as int, true, nstats)
                                    as usize,
                            ),
                            Action::Reload,
                        ] && n.tree == o.tree
                    } else if c == 'p' || c == 't' || c == 'P' || c == 'T' {
                        let threads = c == 't' || c == 'T';
                        let children = c == 'P' || c == 'T';
                        (match node_at(o.tree.cgroups@, o.tree.selected@) {
                            Some(nd) => r matches Some(v) && v@.len() == 3 && (v@[0] matches
                                Action::ProcCGroup(p) && p.deep_view() == nd.path.deep_view())
                                && v@[1] == Action::ProcMode(threads, children) && v@[2]
                                == Action::Scene(AppScene::Procs),
                            None => r is None,
                        }) && n.tree == o.tree
                    } else {
                        r is None && n.tree == o.tree
                    }
                },
                Key::Left => tree_left(o.tree, n.tree, r),
                Key::Right => tree_right(o.tree, n.tree, r),
                Key::Down => tree_moved_by(o.tree, n.tree, r, 1, -1),
                Key::Up => tree_moved_by(
                    o.tree,
                    n.tree,
                    r,
                    -1,
                    o.tree.page_size + 1,
                ),
                Key::Home => tree_first(o.tree, n.tree, r),
                Key::End => tree_last(o.tree, n.tree, r),
                _ => r is None && n.tree == o.tree,
            }
}

impl CGroupTreeScene {
    pub fn new() -> (r: CGroupTreeScene)
        ensures
            r.sort == CGroupSortOrder::NameAsc,
            r.stat == 0,
            r.tree.cgroups@.len() == 0,
            r.tree.selected@.len() == 0,
            r.tree.opened@.len() == 0,
    {
        CGroupTreeScene { tree: CGroupTree::new(), sort: CGroupSortOrder::NameAsc, stat: 0 }
    }

    /// Sets the statistic to view.
    pub fn set_stat(&mut self, stat: usize)
        ensures
            final(self).stat == stat,
            final(self).sort == old(self).sort,
            final(self).tree == old(self).tree,
    {
        self.stat = stat;
    }

    /// Sets the sort order to use.
    pub fn set_sort(&mut self, sort: CGroupSortOrder)
        ensures
            final(self).sort == sort,
            final(self).stat == old(self).stat,
            final(self).tree == old(self).tree,
    {
        self.sort = sort;
    }

    /// Carries a process-table sort order over to the tree.
    pub fn set_proc_sort(&mut self, sort: ProcSortOrder)
        ensures
            final(self).sort == cgroup_sort_of_proc(sort, old(self).sort),
            final(self).stat == old(self).stat,
            final(self).tree == old(self).tree,
    {
        match sort {
            ProcSortOrder::StatAsc => {
                self.sort = CGroupSortOrder::StatAsc;
            }
            ProcSortOrder::StatDsc => {
                self.sort = CGroupSortOrder::StatDsc;
            }
            ProcSortOrder::CmdAsc => {
                self.sort = CGroupSortOrder::NameAsc;
            }
            ProcSortOrder::CmdDsc => {
                self.sort = CGroupSortOrder::NameDsc;
            }
            _ => {
            }
        }
    }

    fn sort_name(&self) -> (r: PollResult)
        ensures
            r matches Some(v) && v@ == seq![
                Action::CGroupSort(
                    if self.sort == CGroupSortOrder::NameAsc {
                        CGroupSortOrder::NameDsc
                    } else {
                        CGroupSortOrder::NameAsc
                    },
                ),
                Action::Reload,
            ],
    {
        let new_sort = match self.sort {
            CGroupSortOrder::NameAsc => CGroupSortOrder::NameDsc,
            _ => CGroupSortOrder::NameAsc,
        };
        let mut v: Vec<Action> = Vec::new();
        v.push(Action::CGroupSort(new_sort));
        v.push(Action::Reload);
        proof {
            assert(v@ =~= seq![Action::CGroupSort(new_sort), Action::Reload]);
        }
        Some(v)
    }

    fn sort_stat(&self) -> (r: PollResult)
        ensures
            r matches Some(v) && v@ == seq![
                Action::CGroupSort(
                    if self.sort == CGroupSortOrder::StatAsc {
                        CGroupSortOrder::StatDsc
                    } else {
                        CGroupSortOrder::StatAsc
                    },
                ),
                Action::Reload,
            ],
    {
        let new_sort = match self.sort {
            CGroupSortOrder::StatAsc => CGroupSortOrder::StatDsc,
            _ => CGroupSortOrder::StatAsc,
        };
        let mut v: Vec<Action> = Vec::new();
        v.push(Action::CGroupSort(new_sort));
        v.push(Action::Reload);
        proof {
            assert(v@ =~= seq![Action::CGroupSort(new_sort), Action::Reload]);
        }
        Some(v)
    }

    fn next_stat(&self, up: bool, nstats: usize) -> (r: PollResult)
        requires
            nstats >= 1,
            self.stat < nstats,
        ensures
            r matches Some(v) && v@ == seq![
                Action::Stat(next_stat_index(self.stat as int, up, nstats as int) as usize),
                Action::Reload,
            ],
    {
        let new_stat: usize = if up {
            if self.stat >= nstats - 1 {
                0
            } else {
                self.stat + 1
            }
        } else if self.stat == 0 {
            nstats - 1
        } else {
            self.stat - 1
        };
        proof {
            if up {
                assert((self.stat as int + 1) % (nstats as int) == (if self.stat as int + 1
                    == nstats as int {
                    0int
                } else {
                    self.stat as int + 1
                })) by (nonlinear_arith)
                    requires
                        0 <= self.stat as int,
                        (self.stat as int) < (nstats as int),
                ;
            }
        }
        let mut v: Vec<Action> = Vec::new();
        v.push(Action::Stat(new_stat));
        v.push(Action::Reload);
        proof {
            assert(v@ =~= seq![Action::Stat(new_stat), Action::Reload]);
        }
        Some(v)
    }

    /// Asks for the process table of the selected cgroup, in the given
    /// mode; means nothing while no node is selected.
    fn procs(&self, threads: bool, include_children: bool) -> (r: PollResult)
        ensures
            match node_at(self.tree.cgroups@, self.tree.selected@) {
                Some(n) => r matches Some(v) && v@.len() == 3 && (v@[0] matches Action::ProcCGroup(
                    p,
                ) && p.deep_view() == n.path.deep_view()) && v@[1] == Action::ProcMode(
                    threads,
                    include_children,
                ) && v@[2] == Action::Scene(AppScene::Procs),
                None => r is None,
            },
    {
        match self.tree.cgroup() {
            Some(cgroup) => {
                let path = crate::text::clone_strings(cgroup.path());
                let mut v: Vec<Action> = Vec::new();
                v.push(Action::ProcCGroup(path));
                v.push(Action::ProcMode(threads, include_children));
                v.push(Action::Scene(AppScene::Procs));
                Some(v)
            }
            None => None,
        }
    }

    /// Reloads the tree from a snapshot of the cgroup filesystem root.
    pub fn reload(&mut self, root: &FsDir, stats: &Vec<Stat>)
        requires
            old(self).stat < stats@.len(),
        ensures
            final(self).sort == old(self).sort,
            final(self).stat == old(self).stat,
            exists|forest: Vec<CGroup>|
                {
                    &&& #[trigger] tree_rebuilt(old(self).tree, final(self).tree, forest)
                    &&& (parse_ok(stats@[old(self).stat as int].def@) ==> exists|
                        p: FileProcessor,
                    |
                        #[trigger] fp_wf(p) && fp_matches_def(
                            p,
                            stats@[old(self).stat as int].def@,
                        ) && forest_of(
                            *root,
                            old(self).sort,
                            p,
                            stats@[old(self).stat as int].stype,
                            forest@,
                        ))
                },
    {
        let forest = load_cgroups(root, &stats[self.stat], self.sort);
        let ghost gforest = forest;
        self.tree.build_tree(forest);
        proof {
            assert(tree_rebuilt(old(self).tree, self.tree, gforest));
        }
    }

    /// Handles one key of the tree scene.
    pub fn key_event(&mut self, key: Key, nstats: usize) -> (r: PollResult)
        requires
            nstats >= 1,
            old(self).stat < nstats,
        ensures
            tree_scene_key_event(*old(self), key, nstats as int, *final(self), r),
    {
        match key {
            Key::Esc => {
                let mut v: Vec<Action> = Vec::new();
                v.push(Action::Exit);
                proof {
                    assert(v@ =~= seq![Action::Exit]);
                }
                Some(v)
            }
            Key::Left => self.tree.left(),
            Key::Right => self.tree.right(),
            Key::Down => self.tree.down(),
            Key::Up => self.tree.up(),
            Key::Home => self.tree.first(),
            Key::End => self.tree.last(),
            Key::Char(c) => {
                if c == 'q' {
                    let mut v: Vec<Action> = Vec::new();
                    v.push(Action::Exit);
                    proof {
                        assert(v@ =~= seq![Action::Exit]);
                    }
                    Some(v)
                } else if c == 'c' {
                    self.tree.close_all()
                } else if c == 'r' {
                    let mut v: Vec<Action> = Vec::new();
                    v.push(Action::Reload);
                    proof {
                        assert(v@ =~= seq![Action::Reload]);
                    }
                    Some(v)
                } else if c == 'n' {
                    self.sort_name()
                } else if c == 's' {
                    self.sort_stat()
                } else if c == 'p' {
                    self.procs(false, false)
                } else if c == 't' {
                    self.procs(true, false)
                } else if c == 'P' {
                    self.procs(false, true)
                } else if c == 'T' {
                    self.procs(true, true)
                } else if c == 'z' {
                    let mut v: Vec<Action> = Vec::new();
                    v.push(Action::Scene(AppScene::StatChoose));
                    proof {
                        assert(v@ =~= seq![Action::Scene(AppScene::StatChoose)]);
                    }
                    Some(v)
                } else if c == '[' {
                    self.next_stat(false, nstats)
                } else if c == ']' {
                    self.next_stat(true, nstats)
                } else if c == 'h' {
                    let mut v: Vec<Action> = Vec::new();
                    v.push(Action::Scene(AppScene::CgroupTreeHelp));
                    proof {
                        assert(v@ =~= seq![Action::Scene(AppScene::CgroupTreeHelp)]);
                    }
                    Some(v)
                } else {
                    None
                }
            }
            _ => None,
        }
    }
}

} // verus!
