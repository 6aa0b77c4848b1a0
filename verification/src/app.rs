//! The scene controller: the named scenes, the action protocol through
//! which scenes request every change of shared configuration, and the
//! controller state that applies those actions.

use vstd::prelude::*;

use crate::cgroup::{forest_of, CGroup, CGroupSortOrder};
use crate::file_proc::{fp_matches_def, fp_wf, parse_ok, FileProcessor};
use crate::fsdata::FsDir;
use crate::help::{build_cgroup_tree_help_scene, build_procs_help_scene, help_key_event, HelpScene};
use crate::procs::{proc_le_fn, procs_built, Proc, ProcData, ProcSortOrder};
use crate::procs_scene::{proc_sort_of_cgroup, procs_scene_key_event, resolved_sort, ProcsScene};
use crate::sorting::sort_by_le;
use crate::stat_choose::{stat_choose_key_event, StatChooseScene};
use crate::stats::{stat_wf, stats, ProcStatType, Stat};
use crate::table_view::table_rebuilt_ok;
use crate::tree_scene::{cgroup_sort_of_proc, tree_scene_key_event, CGroupTreeScene};
use crate::tree_view::tree_rebuilt;

verus! {

/// What a scene may ask of the controller.  Scenes never mutate shared
/// configuration themselves; they emit actions and the controller applies
/// them in order.
#[derive(Debug, PartialEq, Eq)]
pub enum Action {
    Reload,
    Exit,
    Stat(usize),
    Scene(AppScene),
    ProcCGroup(Vec<String>),
    ProcMode(bool, bool),
    CGroupSort(CGroupSortOrder),
    ProcSort(ProcSortOrder),
}

/// The full-screen scenes.
#[derive(Debug, Clone, Copy, PartialEq, Eq, Structural)]
pub enum AppScene {
    CGroupTree,
    CgroupTreeHelp,
    StatChoose,
    Procs,
    ProcsHelp,
}

/// What a scene's input handling yields: nothing when the event meant
/// nothing, an action list (possibly empty, to request a redraw) when it
/// did.
pub type PollResult = Option<Vec<Action>>;

/// One decoded input event.
#[derive(Debug, Clone, Copy, PartialEq, Eq, Structural)]
pub enum Key {
    Up,
    Down,
    Left,
    Right,
    Home,
    End,
    PageUp,
    PageDown,
    Enter,
    Esc,
    Char(char),
}

/// The controller's whole state: the active scene, the pending flags, the
/// stat catalog, and every scene's state.  Shared configuration is only
/// ever changed here, by applying actions.
pub struct App {
    pub scene: AppScene,
    pub reload: bool,
    pub running: bool,
    pub stats: Vec<Stat>,
    pub cgroup_tree_scene: CGroupTreeScene,
    pub cgroup_tree_help_scene: HelpScene,
    pub stat_choose_scene: StatChooseScene,
    pub procs_scene: ProcsScene,
    pub procs_help_scene: HelpScene,
}

/// The controller's standing invariant: the catalog is the full one, every
/// scene's statistic index is in range, and the chooser cursor is too.
pub open spec fn app_inv(a: App) -> bool {
    &&& a.stats@.len() == 17
    &&& forall|i: int| 0 <= i < a.stats@.len() ==> stat_wf(#[trigger] a.stats@[i])
    &&& a.cgroup_tree_scene.stat < a.stats@.len()
    &&& a.procs_scene.stat < a.stats@.len()
    &&& a.stat_choose_scene.items == a.stats@.len()
    &&& match a.stat_choose_scene.state {
        Some(s) => s < a.stats@.len(),
        None => true,
    }
}

/// Whether the statistic at `i` has a per-process analog.
pub open spec fn has_proc_stat_at(stats: Seq<Stat>, i: int) -> bool {
    stats[i].proc_stype is MemQtyKb
}

/// How one action transforms the controller.  Anything but the listed
/// effect stays as it was.
pub open spec fn one_action(o: App, act: Action, n: App) -> bool {
    match act {
        Action::Reload => n == App { reload: true, ..o },
        Action::Exit => n == App { running: false, ..o },
        Action::Scene(sc) => n == App { scene: sc, reload: true, ..o },
        Action::Stat(i) => if i < o.stats@.len() {
            &&& n.cgroup_tree_scene.stat == i
            &&& n.cgroup_tree_scene.sort == o.cgroup_tree_scene.sort
            &&& n.cgroup_tree_scene.tree == o.cgroup_tree_scene.tree
            &&& n.stat_choose_scene == StatChooseScene {
                state: Some(i),
                ..o.stat_choose_scene
            }
            &&& n.procs_scene.stat == i
            &&& n.procs_scene.sort == resolved_sort(
                o.procs_scene.proc_sort,
                has_proc_stat_at(o.stats@, i as int),
            )
            &&& n.procs_scene.proc_sort == o.procs_scene.proc_sort
            &&& n.procs_scene.cgroup == o.procs_scene.cgroup
            &&& n.procs_scene.table == o.procs_scene.table
            &&& n.procs_scene.threads == o.procs_scene.threads
            &&& n.procs_scene.include_children == o.procs_scene.include_children
            &&& n.scene == o.scene
            &&& n.reload == o.reload
            &&& n.running == o.running
            &&& n.stats == o.stats
            &&& n.cgroup_tree_help_scene == o.cgroup_tree_help_scene
            &&& n.procs_help_scene == o.procs_help_scene
        } else {
            n == o
        },
        Action::ProcCGroup(path) => {
            &&& n.procs_scene.cgroup.deep_view() == (if path.deep_view().len() > 0
                && path.deep_view().last() == crate::cgroup::self_seg() {
                path.deep_view().drop_last()
            } else {
                path.deep_view()
            })
            &&& n.procs_scene.table.selected is None
            &&& n.procs_scene.table.procs == o.procs_scene.table.procs
            &&& n.procs_scene.sort == o.procs_scene.sort
            &&& n.procs_scene.proc_sort == o.procs_scene.proc_sort
            &&& n.procs_scene.stat == o.procs_scene.stat
            &&& n.procs_scene.threads == o.procs_scene.threads
            &&& n.procs_scene.include_children == o.procs_scene.include_children
            &&& n.scene == o.scene
            &&& n.reload == o.reload
            &&& n.running == o.running
            &&& n.stats == o.stats
            &&& n.cgroup_tree_scene == o.cgroup_tree_scene
            &&& n.cgroup_tree_help_scene == o.cgroup_tree_help_scene
            &&& n.stat_choose_scene == o.stat_choose_scene
            &&& n.procs_help_scene == o.procs_help_scene
        },
        Action::ProcMode(threads, children) => {
            &&& n.procs_scene == ProcsScene {
                threads,
                include_children: children,
                ..o.procs_scene
            }
            &&& n == App { procs_scene: n.procs_scene, ..o }
        },
        Action::CGroupSort(sort) => {
            &&& n.cgroup_tree_scene == CGroupTreeScene { sort, ..o.cgroup_tree_scene }
            &&& n.procs_scene == ProcsScene {
                proc_sort: proc_sort_of_cgroup(sort),
                sort: resolved_sort(
                    proc_sort_of_cgroup(sort),
                    has_proc_stat_at(o.stats@, o.procs_scene.stat as int),
                ),
                ..o.procs_scene
            }
            &&& n == App {
                cgroup_tree_scene: n.cgroup_tree_scene,
                procs_scene: n.procs_scene,
                ..o
            }
        },
        Action::ProcSort(sort) => {
            &&& n.cgroup_tree_scene == CGroupTreeScene {
                sort: cgroup_sort_of_proc(sort, o.cgroup_tree_scene.sort),
                ..o.cgroup_tree_scene
            }
            &&& n.procs_scene == ProcsScene {
                proc_sort: sort,
                sort: resolved_sort(
                    sort,
                    has_proc_stat_at(o.stats@, o.procs_scene.stat as int),
                ),
                ..o.procs_scene
            }
            &&& n == App {
                cgroup_tree_scene: n.cgroup_tree_scene,
                procs_scene: n.procs_scene,
                ..o
            }
        },
    }
}

/// A whole action list, applied left to right.
pub open spec fn actions_applied(o: App, acts: Seq<Action>, n: App) -> bool
    decreases acts.len(),
{
    if acts.len() == 0 {
        n == o
    } else {
        exists|mid: App|
            #![trigger one_action(mid, acts.last(), n)]
            actions_applied(o, acts.drop_last(), mid) && one_action(mid, acts.last(), n)
    }
}

/// Extends an applied action list by one more action.
pub proof fn lemma_actions_applied_snoc(o: App, acts: Seq<Action>, mid: App, act: Action, n: App)
    requires
        actions_applied(o, acts, mid),
        one_action(mid, act, n),
    ensures
        actions_applied(o, acts.push(act), n),
{
    assert(acts.push(act).drop_last() =~= acts);
    assert(acts.push(act).last() == act);
    assert(acts.push(act).len() > 0);
    assert(one_action(mid, acts.push(act).last(), n));
}

/// How one key, handled by the active scene, transforms the controller
/// into the intermediate state `mid` and yields the actions `acts`: the
/// active scene's state steps by its own key relation, and nothing else
/// moves yet.
pub open spec fn scene_key_step(o: App, key: Key, mid: App, acts: PollResult) -> bool {
    match o.scene {
        AppScene::CGroupTree => {
            &&& tree_scene_key_event(
                o.cgroup_tree_scene,
                key,
                o.stats@.len() as int,
                mid.cgroup_tree_scene,
                acts,
            )
            &&& mid == App { cgroup_tree_scene: mid.cgroup_tree_scene, ..o }
        },
        AppScene::CgroupTreeHelp => {
            &&& help_key_event(o.cgroup_tree_help_scene, key, mid.cgroup_tree_help_scene, acts)
            &&& mid == App { cgroup_tree_help_scene: mid.cgroup_tree_help_scene, ..o }
        },
        AppScene::StatChoose => {
            &&& stat_choose_key_event(o.stat_choose_scene, key, mid.stat_choose_scene, acts)
            &&& mid == App { stat_choose_scene: mid.stat_choose_scene, ..o }
        },
        AppScene::Procs => {
            &&& procs_scene_key_event(o.procs_scene, key, o.stats@, mid.procs_scene, acts)
            &&& mid == App { procs_scene: mid.procs_scene, ..o }
        },
        AppScene::ProcsHelp => {
            &&& help_key_event(o.procs_help_scene, key, mid.procs_help_scene, acts)
            &&& mid == App { procs_help_scene: mid.procs_help_scene, ..o }
        },
    }
}

impl App {
    /// Builds the controller with the full catalog, starting on the tree
    /// scene with a reload pending, the given initial statistic (falling
    /// back to the first when out of range), and everything sorted by
    /// statistic descending.
    pub fn new(stat: usize) -> (r: App)
        ensures
            app_inv(r),
            r.scene == AppScene::CGroupTree,
            r.reload,
            r.running,
            ({
                let initial: int = if stat < 17 {
                    stat as int
                } else {
                    0int
                };
                &&& r.cgroup_tree_scene.stat == initial
                &&& r.cgroup_tree_scene.sort == CGroupSortOrder::StatDsc
                &&& r.cgroup_tree_scene.tree.cgroups@.len() == 0
                &&& r.cgroup_tree_scene.tree.selected@.len() == 0
                &&& r.cgroup_tree_scene.tree.opened@.len() == 0
                &&& r.stat_choose_scene.state == Some(initial as usize)
                &&& r.procs_scene.stat == initial
                &&& r.procs_scene.proc_sort == ProcSortOrder::StatDsc
                &&& r.procs_scene.sort == resolved_sort(
                    ProcSortOrder::StatDsc,
                    has_proc_stat_at(r.stats@, initial),
                )
                &&& !r.procs_scene.threads
                &&& !r.procs_scene.include_children
                &&& r.procs_scene.cgroup@.len() == 0
                &&& r.procs_scene.table.procs@.len() == 0
                &&& r.procs_scene.table.selected is None
            }),
            crate::help::lines_view(r.cgroup_tree_help_scene.lines@)
                == crate::help::tree_help_lines(),
            crate::help::lines_view(r.procs_help_scene.lines@) == crate::help::procs_help_lines(),
    {
        let catalog = stats();
        let n = catalog.len();
        let mut res = App {
            scene: AppScene::CGroupTree,
            reload: true,
            running: true,
            stats: catalog,
            cgroup_tree_scene: CGroupTreeScene::new(),
            cgroup_tree_help_scene: build_cgroup_tree_help_scene(),
            stat_choose_scene: StatChooseScene::new(n),
            procs_scene: ProcsScene::new(),
            procs_help_scene: build_procs_help_scene(),
        };
        let initial = if stat < 17 {
            stat
        } else {
            0
        };
        res.set_stat(initial);
        res.set_cgroup_sort(CGroupSortOrder::StatDsc);
        res
    }

    /// Applies the statistic change to every scene that shows it.
    fn set_stat(&mut self, stat: usize)
        requires
            app_inv(*old(self)),
        ensures
            app_inv(*final(self)),
            one_action(*old(self), Action::Stat(stat), *final(self)),
    {
        if stat < self.stats.len() {
            let has = match self.stats[stat].proc_stat_type() {
                ProcStatType::MemQtyKb => true,
                ProcStatType::Absent => false,
            };
            self.cgroup_tree_scene.set_stat(stat);
            self.stat_choose_scene.set_stat(stat);
            self.procs_scene.set_stat(stat, has);
        }
    }

    /// Applies the cgroup sort order to the scenes it touches.
    fn set_cgroup_sort(&mut self, sort: CGroupSortOrder)
        requires
            app_inv(*old(self)),
        ensures
            app_inv(*final(self)),
            one_action(*old(self), Action::CGroupSort(sort), *final(self)),
    {
        let has = match self.stats[self.procs_scene.stat].proc_stat_type() {
            ProcStatType::MemQtyKb => true,
            ProcStatType::Absent => false,
        };
        self.cgroup_tree_scene.set_sort(sort);
        self.procs_scene.set_cgroup_sort(sort, has);
    }

    /// Applies the process sort order to the scenes it touches.
    fn set_proc_sort(&mut self, sort: ProcSortOrder)
        requires
            app_inv(*old(self)),
        ensures
            app_inv(*final(self)),
            one_action(*old(self), Action::ProcSort(sort), *final(self)),
    {
        let has = match self.stats[self.procs_scene.stat].proc_stat_type() {
            ProcStatType::MemQtyKb => true,
            ProcStatType::Absent => false,
        };
        self.cgroup_tree_scene.set_proc_sort(sort);
        self.procs_scene.set_sort(sort, has);
    }

    /// Applies one action.
    fn apply_action(&mut self, act: Action)
        requires
            app_inv(*old(self)),
        ensures
            app_inv(*final(self)),
            one_action(*old(self), act, *final(self)),
    {
        match act {
            Action::Reload => {
                self.reload = true;
            }
            Action::Exit => {
                self.running = false;
            }
            Action::Scene(sc) => {
                self.scene = sc;
                self.reload = true;
            }
            Action::Stat(i) => {
                self.set_stat(i);
            }
            Action::ProcCGroup(path) => {
                self.procs_scene.set_cgroup(path);
            }
            Action::ProcMode(threads, children) => {
                self.procs_scene.set_mode(threads, children);
            }
            Action::CGroupSort(sort) => {
                self.set_cgroup_sort(sort);
            }
            Action::ProcSort(sort) => {
                self.set_proc_sort(sort);
            }
        }
    }

    /// Applies a scene's actions in order; the controller is the sole
    /// mutator of shared configuration.
    pub fn process_actions(&mut self, actions: Vec<Action>)
        requires
            app_inv(*old(self)),
        ensures
            app_inv(*final(self)),
            actions_applied(*old(self), actions@, *final(self)),
    {
        let ghost all = actions@;
        let mut rest = actions;
        let mut k: usize = 0;
        proof {
            assert(all.len() == rest.len());
            assert(all.take(0) =~= Seq::<Action>::empty());
        }
        while rest.len() > 0
            invariant
                app_inv(*self),
                0 <= k,
                all.len() <= usize::MAX,
                k + rest@.len() == all.len(),
                rest@ =~= all.skip(k as int),
                actions_applied(*old(self), all.take(k as int), *self),
            decreases rest@.len(),
        {
            let ghost mid = *self;
            let act = rest.remove(0);
            proof {
                assert(act == all[k as int]);
                assert(rest@ =~= all.skip(k as int + 1));
            }
            self.apply_action(act);
            proof {
                lemma_actions_applied_snoc(*old(self), all.take(k as int), mid, act, *self);
                assert(all.take(k as int).push(act) =~= all.take(k as int + 1));
            }
            k = k + 1;
        }
        proof {
            assert(all.take(k as int) =~= all);
        }
    }

    /// Whether a reload is pending.
    pub fn reload_needed(&self) -> (r: bool)
        ensures
            r == self.reload,
    {
        self.reload
    }

    /// Whether the application keeps running.
    pub fn is_running(&self) -> (r: bool)
        ensures
            r == self.running,
    {
        self.running
    }

    /// The active scene.
    pub fn current_scene(&self) -> (r: AppScene)
        ensures
            r == self.scene,
    {
        self.scene
    }

    /// Marks the pending reload as done.
    pub fn clear_reload(&mut self)
        ensures
            (*final(self) == App { reload: false, ..*old(self) }),
            (app_inv(*old(self)) ==> app_inv(*final(self))),
    {
        self.reload = false;
    }

    /// Reloads the tree scene from a snapshot of the cgroup root: the
    /// active statistic's definition drives a fresh load of the forest,
    /// and the view state reconciles against it.
    pub fn reload_tree(&mut self, root: &FsDir)
        requires
            app_inv(*old(self)),
        ensures
            app_inv(*final(self)),
            final(self).scene == old(self).scene,
            final(self).reload == old(self).reload,
            final(self).running == old(self).running,
            final(self).stats == old(self).stats,
            final(self).procs_scene == old(self).procs_scene,
            final(self).stat_choose_scene == old(self).stat_choose_scene,
            final(self).cgroup_tree_help_scene == old(self).cgroup_tree_help_scene,
            final(self).procs_help_scene == old(self).procs_help_scene,
            final(self).cgroup_tree_scene.sort == old(self).cgroup_tree_scene.sort,
            final(self).cgroup_tree_scene.stat == old(self).cgroup_tree_scene.stat,
            exists|forest: Vec<CGroup>|
                {
                    &&& #[trigger] tree_rebuilt(
                        old(self).cgroup_tree_scene.tree,
                        final(self).cgroup_tree_scene.tree,
                        forest,
                    )
                    &&& (parse_ok(
                        old(self).stats@[old(self).cgroup_tree_scene.stat as int].def@,
                    ) ==> exists|p: FileProcessor|
                        #[trigger] fp_wf(p) && fp_matches_def(
                            p,
                            old(self).stats@[old(self).cgroup_tree_scene.stat as int].def@,
                        ) && forest_of(
                            *root,
                            old(self).cgroup_tree_scene.sort,
                            p,
                            old(self).stats@[old(self).cgroup_tree_scene.stat as int].stype,
                            forest@,
                        ))
                },
    {
        let stats_ref = &self.stats;
        self.cgroup_tree_scene.reload(root, stats_ref);
    }

    /// Reloads the process scene from the per-process snapshots: the rows
    /// are built and sorted by the scene's configuration and the table
    /// reconciles by process id; a listing failure is recorded instead.
    pub fn reload_procs(&mut self, data: Result<Vec<ProcData>, String>)
        requires
            app_inv(*old(self)),
        ensures
            app_inv(*final(self)),
            final(self).scene == old(self).scene,
            final(self).reload == old(self).reload,
            final(self).running == old(self).running,
            final(self).stats == old(self).stats,
            final(self).cgroup_tree_scene == old(self).cgroup_tree_scene,
            final(self).stat_choose_scene == old(self).stat_choose_scene,
            final(self).cgroup_tree_help_scene == old(self).cgroup_tree_help_scene,
            final(self).procs_help_scene == old(self).procs_help_scene,
            final(self).procs_scene.cgroup == old(self).procs_scene.cgroup,
            final(self).procs_scene.sort == old(self).procs_scene.sort,
            final(self).procs_scene.proc_sort == old(self).procs_scene.proc_sort,
            final(self).procs_scene.stat == old(self).procs_scene.stat,
            final(self).procs_scene.threads == old(self).procs_scene.threads,
            final(self).procs_scene.include_children == old(self).procs_scene.include_children,
            match data {
                Ok(pds) => exists|built: Seq<Proc>|
                    #[trigger] procs_built(
                        pds@,
                        old(self).stats@[old(self).procs_scene.stat as int],
                        built,
                    ) && table_rebuilt_ok(
                        old(self).procs_scene.table,
                        final(self).procs_scene.table,
                        sort_by_le(proc_le_fn(old(self).procs_scene.sort), built),
                    ),
                Err(m) => {
                    &&& final(self).procs_scene.table.procs@.len() == 0
                    &&& (final(self).procs_scene.table.error matches Some(e) && e@ == m@)
                    &&& final(self).procs_scene.table.page_size == old(
                        self,
                    ).procs_scene.table.page_size
                },
            },
    {
        self.procs_scene.reload(data, &self.stats);
    }

    /// Dispatches one key to the active scene and applies whatever actions
    /// it asks for; yields whether a redraw is wanted: the scene steps by
    /// its own key relation, and the emitted actions (if any) are then
    /// applied in order.
    pub fn key_event(&mut self, key: Key) -> (redraw: bool)
        requires
            app_inv(*old(self)),
        ensures
            app_inv(*final(self)),
            exists|mid: App, acts: PollResult|
                #![trigger scene_key_step(*old(self), key, mid, acts)]
                scene_key_step(*old(self), key, mid, acts) && (match acts {
                    Some(v) => redraw && actions_applied(mid, v@, *final(self)),
                    None => !redraw && *final(self) == mid,
                }),
    {
        let actions: PollResult = match self.scene {
            AppScene::CGroupTree => {
                let n = self.stats.len();
                self.cgroup_tree_scene.key_event(key, n)
            }
            AppScene::CgroupTreeHelp => self.cgroup_tree_help_scene.key_event(key),
            AppScene::StatChoose => self.stat_choose_scene.key_event(key),
            AppScene::Procs => {
                let stats_ref = &self.stats;
                self.procs_scene.key_event(key, stats_ref)
            }
            AppScene::ProcsHelp => self.procs_help_scene.key_event(key),
        };
        let ghost mid = *self;
        let ghost gacts = actions;
        proof {
            assert(scene_key_step(*old(self), key, mid, gacts));
        }
        match actions {
            Some(acts) => {
                self.process_actions(acts);
                true
            }
            None => false,
        }
    }
}

} // verus!
