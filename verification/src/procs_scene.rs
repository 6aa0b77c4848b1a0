//! The process table scene: its piece of the shared configuration (target
//! cgroup, statistic, sort order, thread and descendant modes), its view
//! state, and its input handling.

use vstd::prelude::*;

use crate::app::{Action, AppScene, Key, PollResult};
use crate::cgroup::{self_seg, CGroupSortOrder};
use crate::procs::{load_procs, proc_le_fn, procs_built, Proc, ProcData, ProcSortOrder};
use crate::sorting::sort_by_le;
use crate::stats::{stat_wf, ProcStatType, Stat};
use crate::table_view::{table_moved_by, table_moved_to, table_rebuilt_ok, ProcsTable};

verus! {

/// The process scene's state.  `proc_sort` is the order the user asked
/// for; `sort` is the one in force, which falls back from a statistic
/// order to the id order while the active statistic has no per-process
/// analog.
pub struct ProcsScene {
    pub table: ProcsTable,
    pub cgroup: Vec<String>,
    pub sort: ProcSortOrder,
    pub proc_sort: ProcSortOrder,
    pub stat: usize,
    pub threads: bool,
    pub include_children: bool,
}

/// The order in force: a statistic order degrades to the id order when the
/// statistic has no per-process analog.
pub open spec fn resolved_sort(requested: ProcSortOrder, has_proc_stat: bool) -> ProcSortOrder {
    if !has_proc_stat {
        match requested {
            ProcSortOrder::StatAsc => ProcSortOrder::PidAsc,
            ProcSortOrder::StatDsc => ProcSortOrder::PidDsc,
            s => s,
        }
    } else {
        requested
    }
}

/// One cyclic step through the catalog, up or down.
pub open spec fn stat_step(cur: int, up: bool, n: int) -> int {
    if up {
        if cur >= n - 1 {
            0
        } else {
            cur + 1
        }
    } else if cur == 0 {
        n - 1
    } else {
        cur - 1
    }
}

/// The first position reached from `cur` in at most `left` cyclic steps
/// whose entry has a per-process analog, or `fallback` when none has.
pub open spec fn next_proc_stat_from(
    cur: int,
    up: bool,
    stats: Seq<Stat>,
    left: nat,
    fallback: int,
) -> int
    decreases left,
{
    if left == 0 {
        fallback
    } else {
        let nxt = stat_step(cur, up, stats.len() as int);
        if stats[nxt].proc_stype is MemQtyKb {
            nxt
        } else {
            next_proc_stat_from(nxt, up, stats, (left - 1) as nat, fallback)
        }
    }
}

/// The statistic the `]` (up) or `[` (down) key lands on: the nearest one
/// cyclically that has a per-process analog, the current one when none
/// has.
pub open spec fn next_proc_stat(stat: int, up: bool, stats: Seq<Stat>) -> int {
    next_proc_stat_from(stat, up, stats, stats.len() as nat, stat)
}

/// The process order a cgroup order translates to.
pub open spec fn proc_sort_of_cgroup(sort: CGroupSortOrder) -> ProcSortOrder {
    match sort {
        CGroupSortOrder::NameAsc => ProcSortOrder::CmdAsc,
        CGroupSortOrder::NameDsc => ProcSortOrder::CmdDsc,
        CGroupSortOrder::StatAsc => ProcSortOrder::StatAsc,
        CGroupSortOrder::StatDsc => ProcSortOrder::StatDsc,
    }
}

/// How one key transforms the process scene.  The scene's own
/// configuration never changes here (configuration changes travel as
/// actions); the navigation keys move the table, and the rest yield
/// action lists.
pub open spec fn procs_scene_key_event(
    o: ProcsScene,
    key: Key,
    stats: Seq<Stat>,
    n: ProcsScene,
    r: PollResult,
) -> bool {
    &&& n.cgroup == o.cgroup
    &&& n.sort == o.sort
    &&& n.proc_sort == o.proc_sort
    &&& n.stat == o.stat
    &&& n.threads == o.threads
    &&& n.include_children == o.include_children
    &&& match key {
                Key::Esc => r matches Some(v) && v@ == seq![Action::Scene(AppScene::CGroupTree)]
                    && n.table == o.table,
                Key::Up => table_moved_by(o.table, n.table, r, -1),
                Key::Down => table_moved_by(o.table, n.table, r, 1),
                Key::PageUp => table_moved_by(
                    o.table,
                    n.table,
                    r,
                    -(o.table.page_size as int),
                ),
                Key::PageDown => table_moved_by(
                    o.table,
                    n.table,
                    r,
                    o.table.page_size as int,
                ),
                Key::Home => table_moved_to(o.table, n.table, r, 1),
                Key::End => table_moved_to(o.table, n.table, r, -1),
                Key::Char(c) => {
                    if c == 'q' || c == 'p' || c == 't' || c == 'P' || c == 'T' {
                        r matches Some(v) && v@ == seq![Action::Scene(AppScene::CGroupTree)]
                            && n.table == o.table
                    } else if c == 'i' {
                        r matches Some(v) && v@ == seq![
                            Action::ProcSort(
                                if o.sort == ProcSortOrder::PidAsc {
                                    ProcSortOrder::PidDsc
                                } else {
                                    ProcSortOrder::PidAsc
                                },
                            ),
                            Action::Reload,
                        ] && n.table == o.table
                    } else if c == 'n' {
                        r matches Some(v) && v@ == seq![
                            Action::ProcSort(
                                if o.sort == ProcSortOrder::CmdAsc {
                                    ProcSortOrder::CmdDsc
                                } else {
                                    ProcSortOrder::CmdAsc
                                },
                            ),
                            Action::Reload,
                        ] && n.table == o.table
                    } else if c == 's' {
                        r matches Some(v) && v@ == seq![
                            Action::ProcSort(
                                if o.sort == ProcSortOrder::StatAsc {
                                    ProcSortOrder::StatDsc
                                } else {
                                    ProcSortOrder::StatAsc
                                },
                            ),
                            Action::Reload,
                        ] && n.table == o.table
                    } else if c == 'a' {
                        r matches Some(v) && v@ == seq![
                            Action::ProcMode(!o.threads, o.include_children),
                            Action::Reload,
                        ] && n.table == o.table
                    } else if c == 'c' {
                        r matches Some(v) && v@ == seq![
                            Action::ProcMode(o.threads, !o.include_children),
                            Action::Reload,
                        ] && n.table == o.table
                    } else if c == 'h' {
                        r matches Some(v) && v@ == seq![Action::Scene(AppScene::ProcsHelp)]
                            && n.table == o.table
                    } else if c == 'r' {
                        r matches Some(v) && v@ == seq![Action::Reload] && n.table
                            == o.table
                    } else if c == '[' || c == ']' {
                        (r matches Some(v) && v@ == seq![
                            Action::Stat(
                                next_proc_stat(o.stat as int, c == ']', stats) as usize,
                            ),
                            Action::Reload,
                        ]) && next_proc_stat(o.stat as int, c == ']', stats)
                            < stats.len() && n.table == o.table
                    } else {
                        r is None && n.table == o.table
                    }
                },
                _ => r is None && n.table == o.table,
            }
}

impl ProcsScene {
    pub fn new() -> (r: ProcsScene)
        ensures
            r.sort == ProcSortOrder::CmdAsc,
            r.proc_sort == ProcSortOrder::CmdAsc,
            r.stat == 0,
            !r.threads,
            !r.include_children,
            r.cgroup@.len() == 0,
            r.table.procs@.len() == 0,
            r.table.selected is None,
    {
        ProcsScene {
            table: ProcsTable::new(),
            cgroup: Vec::new(),
            sort: ProcSortOrder::CmdAsc,
            proc_sort: ProcSortOrder::CmdAsc,
            stat: 0,
            threads: false,
            include_children: false,
        }
    }

    /// Sets the cgroup whose processes are shown; a synthetic `<self>`
    /// entry stands for its parent.  The table selection is forgotten.
    pub fn set_cgroup(&mut self, path: Vec<String>)
        ensures
            final(self).cgroup.deep_view() == (if path.deep_view().len() > 0
                && path.deep_view().last() == self_seg() {
                path.deep_view().drop_last()
            } else {
                path.deep_view()
            }),
            final(self).table.selected is None,
            final(self).table.procs == old(self).table.procs,
            final(self).sort == old(self).sort,
            final(self).proc_sort == old(self).proc_sort,
            final(self).stat == old(self).stat,
            final(self).threads == old(self).threads,
            final(self).include_children == old(self).include_children,
    {
        let mut path = path;
        let n = path.len();
        if n > 0 {
            if crate::text::str_cmp(path[n - 1].as_str(), "<self>") == 0 {
                proof {
                    crate::text::lemma_chars_cmp_props(path@[n - 1].deep_view(), "<self>"@);
                    assert(path.deep_view()[n - 1] == path@[n - 1]@);
                }
                let ghost before = path.deep_view();
                let _ = path.pop();
                proof {
                    assert(path.deep_view() =~= before.drop_last());
                }
            } else {
                proof {
                    crate::text::lemma_chars_cmp_props(path@[n - 1].deep_view(), "<self>"@);
                    assert(path.deep_view()[n - 1] == path@[n - 1]@);
                }
            }
        }
        self.cgroup = path;
        self.table.reset();
    }

    /// Sets the statistic to display and re-resolves the sort order.
    pub fn set_stat(&mut self, stat: usize, has_proc_stat: bool)
        ensures
            final(self).stat == stat,
            final(self).sort == resolved_sort(old(self).proc_sort, has_proc_stat),
            final(self).proc_sort == old(self).proc_sort,
            final(self).cgroup == old(self).cgroup,
            final(self).table == old(self).table,
            final(self).threads == old(self).threads,
            final(self).include_children == old(self).include_children,
    {
        self.stat = stat;
        self.resolve_sort(has_proc_stat);
    }

    /// Sets the requested sort order and re-resolves it.
    pub fn set_sort(&mut self, sort: ProcSortOrder, has_proc_stat: bool)
        ensures
            final(self).proc_sort == sort,
            final(self).sort == resolved_sort(sort, has_proc_stat),
            final(self).stat == old(self).stat,
            final(self).cgroup == old(self).cgroup,
            final(self).table == old(self).table,
            final(self).threads == old(self).threads,
            final(self).include_children == old(self).include_children,
    {
        self.proc_sort = sort;
        self.resolve_sort(has_proc_stat);
    }

    /// Carries a cgroup sort order over to the table.
    pub fn set_cgroup_sort(&mut self, sort: CGroupSortOrder, has_proc_stat: bool)
        ensures
            final(self).proc_sort == proc_sort_of_cgroup(sort),
            final(self).sort == resolved_sort(proc_sort_of_cgroup(sort), has_proc_stat),
            final(self).stat == old(self).stat,
            final(self).cgroup == old(self).cgroup,
            final(self).table == old(self).table,
            final(self).threads == old(self).threads,
            final(self).include_children == old(self).include_children,
    {
        match sort {
            CGroupSortOrder::NameAsc => {
                self.proc_sort = ProcSortOrder::CmdAsc;
            }
            CGroupSortOrder::NameDsc => {
                self.proc_sort = ProcSortOrder::CmdDsc;
            }
            CGroupSortOrder::StatAsc => {
                self.proc_sort = ProcSortOrder::StatAsc;
            }
            CGroupSortOrder::StatDsc => {
                self.proc_sort = ProcSortOrder::StatDsc;
            }
        }
        self.resolve_sort(has_proc_stat);
    }

    /// Sets the thread and descendant display modes.
    pub fn set_mode(&mut self, threads: bool, include_children: bool)
        ensures
            final(self).threads == threads,
            final(self).include_children == include_children,
            final(self).stat == old(self).stat,
            final(self).sort == old(self).sort,
            final(self).proc_sort == old(self).proc_sort,
            final(self).cgroup == old(self).cgroup,
            final(self).table == old(self).table,
    {
        self.threads = threads;
        self.include_children = include_children;
    }

    fn resolve_sort(&mut self, has_proc_stat: bool)
        ensures
            final(self).sort == resolved_sort(old(self).proc_sort, has_proc_stat),
            final(self).proc_sort == old(self).proc_sort,
            final(self).stat == old(self).stat,
            final(self).cgroup == old(self).cgroup,
            final(self).table == old(self).table,
            final(self).threads == old(self).threads,
            final(self).include_children == old(self).include_children,
    {
        self.sort = if !has_proc_stat {
            match self.proc_sort {
                ProcSortOrder::StatAsc => ProcSortOrder::PidAsc,
                ProcSortOrder::StatDsc => ProcSortOrder::PidDsc,
                s => s,
            }
        } else {
            self.proc_sort
        };
    }

    fn sort_pid(&self) -> (r: PollResult)
        ensures
            r matches Some(v) && v@ == seq![
                Action::ProcSort(
                    if self.sort == ProcSortOrder::PidAsc {
                        ProcSortOrder::PidDsc
                    } else {
                        ProcSortOrder::PidAsc
                    },
                ),
                Action::Reload,
            ],
    {
        let new_sort = match self.sort {
            ProcSortOrder::PidAsc => ProcSortOrder::PidDsc,
            _ => ProcSortOrder::PidAsc,
        };
        let mut v: Vec<Action> = Vec::new();
        v.push(Action::ProcSort(new_sort));
        v.push(Action::Reload);
        proof {
            assert(v@ =~= seq![Action::ProcSort(new_sort), Action::Reload]);
        }
        Some(v)
    }

    fn sort_name(&self) -> (r: PollResult)
        ensures
            r matches Some(v) && v@ == seq![
                Action::ProcSort(
                    if self.sort == ProcSortOrder::CmdAsc {
                        ProcSortOrder::CmdDsc
                    } else {
                        ProcSortOrder::CmdAsc
                    },
                ),
                Action::Reload,
            ],
    {
        let new_sort = match self.sort {
            ProcSortOrder::CmdAsc => ProcSortOrder::CmdDsc,
            _ => ProcSortOrder::CmdAsc,
        };
        let mut v: Vec<Action> = Vec::new();
        v.push(Action::ProcSort(new_sort));
        v.push(Action::Reload);
        proof {
            assert(v@ =~= seq![Action::ProcSort(new_sort), Action::Reload]);
        }
        Some(v)
    }

    fn sort_stat(&self) -> (r: PollResult)
        ensures
            r matches Some(v) && v@ == seq![
                Action::ProcSort(
                    if self.sort == ProcSortOrder::StatAsc {
                        ProcSortOrder::StatDsc
                    } else {
                        ProcSortOrder::StatAsc
                    },
                ),
                Action::Reload,
            ],
    {
        let new_sort = match self.sort {
            ProcSortOrder::StatAsc => ProcSortOrder::StatDsc,
            _ => ProcSortOrder::StatAsc,
        };
        let mut v: Vec<Action> = Vec::new();
        v.push(Action::ProcSort(new_sort));
        v.push(Action::Reload);
        proof {
            assert(v@ =~= seq![Action::ProcSort(new_sort), Action::Reload]);
        }
        Some(v)
    }

    /// Steps to the next (or previous) statistic that has a per-process
    /// analog, wrapping around the catalog; stays put when none has one.
    fn next_stat(&self, up: bool, stats: &Vec<Stat>) -> (r: PollResult)
        requires
            stats@.len() >= 1,
            self.stat < stats@.len(),
        ensures
            r matches Some(v) && v@ == seq![
                Action::Stat(next_proc_stat(self.stat as int, up, stats@) as usize),
                Action::Reload,
            ],
            next_proc_stat(self.stat as int, up, stats@) < stats@.len(),
    {
        let n = stats.len();
        let orig = self.stat;
        let mut new_stat: usize = orig;
        let mut steps: usize = 0;
        let mut found = false;
        while steps < n && !found
            invariant
                0 <= steps <= n,
                n == stats@.len(),
                new_stat < n,
                orig < n,
                next_proc_stat(orig as int, up, stats@) == (if found {
                    new_stat as int
                } else {
                    next_proc_stat_from(
                        new_stat as int,
                        up,
                        stats@,
                        (n - steps) as nat,
                        orig as int,
                    )
                }),
                found ==> stats@[new_stat as int].proc_stype is MemQtyKb,
            decreases n - steps + (if found { 0int } else { 1int }),
        {
            proof {
                assert(next_proc_stat_from(
                    new_stat as int,
                    up,
                    stats@,
                    (n - steps) as nat,
                    orig as int,
                ) == {
                    let nxt = stat_step(new_stat as int, up, n as int);
                    if stats@[nxt].proc_stype is MemQtyKb {
                        nxt
                    } else {
                        next_proc_stat_from(nxt, up, stats@, (n - steps - 1) as nat, orig as int)
                    }
                });
            }
            new_stat = if up {
                if new_stat >= n - 1 {
                    0
                } else {
                    new_stat + 1
                }
            } else if new_stat == 0 {
                n - 1
            } else {
                new_stat - 1
            };
            match stats[new_stat].proc_stat_type() {
                ProcStatType::MemQtyKb => {
                    found = true;
                }
                ProcStatType::Absent => {
                    steps = steps + 1;
                }
            }
        }
        let chosen: usize = if found {
            new_stat
        } else {
            self.stat
        };
        proof {
            if !found {
                assert(next_proc_stat_from(new_stat as int, up, stats@, 0nat, orig as int)
                    == orig as int);
            }
            assert(chosen as int == next_proc_stat(self.stat as int, up, stats@));
        }
        let mut v: Vec<Action> = Vec::new();
        v.push(Action::Stat(chosen));
        v.push(Action::Reload);
        proof {
            assert(v@ =~= seq![Action::Stat(chosen), Action::Reload]);
        }
        Some(v)
    }

    /// Rebuilds the table from the per-process snapshots (or records the
    /// listing failure), keeping the selection by process id.
    pub fn reload(&mut self, data: Result<Vec<ProcData>, String>, stats: &Vec<Stat>)
        requires
            old(self).stat < stats@.len(),
            stat_wf(stats@[old(self).stat as int]),
        ensures
            final(self).cgroup == old(self).cgroup,
            final(self).sort == old(self).sort,
            final(self).proc_sort == old(self).proc_sort,
            final(self).stat == old(self).stat,
            final(self).threads == old(self).threads,
            final(self).include_children == old(self).include_children,
            match data {
                Ok(pds) => exists|built: Seq<Proc>|
                    #[trigger] procs_built(pds@, stats@[old(self).stat as int], built)
                        && table_rebuilt_ok(
                        old(self).table,
                        final(self).table,
                        sort_by_le(proc_le_fn(old(self).sort), built),
                    ),
                Err(m) => final(self).table.procs@.len() == 0 && (final(self).table.error matches
                    Some(e) && e@ == m@) && final(self).table.page_size == old(
                    self,
                ).table.page_size,
            },
    {
        match data {
            Ok(pds) => {
                let procs = load_procs(&pds, &stats[self.stat], self.sort);
                self.table.build_table(Ok(procs));
            }
            Err(m) => {
                self.table.build_table(Err(m));
            }
        }
    }

    /// Handles one key of the process scene.
    pub fn key_event(&mut self, key: Key, stats: &Vec<Stat>) -> (r: PollResult)
        requires
            stats@.len() >= 1,
            old(self).stat < stats@.len(),
        ensures
            procs_scene_key_event(*old(self), key, stats@, *final(self), r),
    {
        match key {
            Key::Esc => {
                let mut v: Vec<Action> = Vec::new();
                v.push(Action::Scene(AppScene::CGroupTree));
                proof {
                    assert(v@ =~= seq![Action::Scene(AppScene::CGroupTree)]);
                }
                Some(v)
            }
            Key::Up => self.table.up(),
            Key::Down => self.table.down(),
            Key::PageUp => self.table.pgup(),
            Key::PageDown => self.table.pgdown(),
            Key::Home => self.table.home(),
            Key::End => self.table.end(),
            Key::Char(c) => {
                if c == 'q' || c == 'p' || c == 't' || c == 'P' || c == 'T' {
                    let mut v: Vec<Action> = Vec::new();
                    v.push(Action::Scene(AppScene::CGroupTree));
                    proof {
                        assert(v@ =~= seq![Action::Scene(AppScene::CGroupTree)]);
                    }
                    Some(v)
                } else if c == 'i' {
                    self.sort_pid()
                } else if c == 'n' {
                    self.sort_name()
                } else if c == 's' {
                    self.sort_stat()
                } else if c == '[' {
                    self.next_stat(false, stats)
                } else if c == ']' {
                    self.next_stat(true, stats)
                } else if c == 'a' {
                    let mut v: Vec<Action> = Vec::new();
                    v.push(Action::ProcMode(!self.threads, self.include_children));
                    v.push(Action::Reload);
                    proof {
                        assert(v@ =~= seq![
                            Action::ProcMode(!self.threads, self.include_children),
                            Action::Reload,
                        ]);
                    }
                    Some(v)
                } else if c == 'c' {
                    let mut v: Vec<Action> = Vec::new();
                    v.push(Action::ProcMode(self.threads, !self.include_children));
                    v.push(Action::Reload);
                    proof {
                        assert(v@ =~= seq![
                            Action::ProcMode(self.threads, !self.include_children),
                            Action::Reload,
                        ]);
                    }
                    Some(v)
                } else if c == 'h' {
                    let mut v: Vec<Action> = Vec::new();
                    v.push(Action::Scene(AppScene::ProcsHelp));
                    proof {
                        assert(v@ =~= seq![Action::Scene(AppScene::ProcsHelp)]);
                    }
                    Some(v)
                } else if c == 'r' {
                    let mut v: Vec<Action> = Vec::new();
                    v.push(Action::Reload);
                    proof {
                        assert(v@ =~= seq![Action::Reload]);
                    }
                    Some(v)
                } else {
                    None
                }
            }
            _ => None,
        }
    }
}

} // verus!
