//! The statistic chooser scene: a cursor over the catalog entries.

use vstd::prelude::*;

use crate::app::{Action, AppScene, Key, PollResult};

verus! {

/// The chooser's state: the cursor, and how many entries the catalog has.
pub struct StatChooseScene {
    pub state: Option<usize>,
    pub items: usize,
}

/// How one key transforms the chooser: the arrows move the cursor, enter
/// and space select, `q`, `h` and escape leave for the tree scene.
pub open spec fn stat_choose_key_event(
    o: StatChooseScene,
    key: Key,
    n: StatChooseScene,
    r: PollResult,
) -> bool {
    &&& n.items == o.items
    &&& match key {
                Key::Esc => r matches Some(v) && v@ == seq![Action::Scene(AppScene::CGroupTree)]
                    && n == o,
                Key::Char(c) => if c == 'q' || c == 'h' {
                    r matches Some(v) && v@ == seq![Action::Scene(AppScene::CGroupTree)]
                        && n == o
                } else if c == ' ' {
                    (match o.state {
                        Some(sel) => r matches Some(v) && v@ == seq![
                            Action::Stat(sel),
                            Action::Scene(AppScene::CGroupTree),
                        ],
                        None => r is None,
                    }) && n == o
                } else {
                    r is None && n == o
                },
                Key::Enter => (match o.state {
                    Some(sel) => r matches Some(v) && v@ == seq![
                        Action::Stat(sel),
                        Action::Scene(AppScene::CGroupTree),
                    ],
                    None => r is None,
                }) && n == o,
                Key::Up => match o.state {
                    Some(cur) => if cur > 0 {
                        n.state == Some((cur - 1) as usize) && (r matches Some(v)
                            && v@.len() == 0)
                    } else {
                        n == o && r is None
                    },
                    None => n.state == Some((o.items - 1) as usize) && (r matches
                        Some(v) && v@.len() == 0),
                },
                Key::Down => match o.state {
                    Some(cur) => if cur < o.items - 1 {
                        n.state == Some((cur + 1) as usize) && (r matches Some(v)
                            && v@.len() == 0)
                    } else {
                        n == o && r is None
                    },
                    None => n.state == Some(0usize) && (r matches Some(v) && v@.len()
                        == 0),
                },
                _ => r is None && n == o,
            }
}

impl StatChooseScene {
    pub fn new(items: usize) -> (r: StatChooseScene)
        ensures
            r.state is None,
            r.items == items,
    {
        StatChooseScene { state: None, items }
    }

    /// Puts the cursor on the active statistic.
    pub fn set_stat(&mut self, stat: usize)
        ensures
            final(self).state == Some(stat),
            final(self).items == old(self).items,
    {
        self.state = Some(stat);
    }

    fn up(&mut self) -> (r: PollResult)
        requires
            old(self).items >= 1,
        ensures
            final(self).items == old(self).items,
            match old(self).state {
                Some(cur) => if cur > 0 {
                    final(self).state == Some((cur - 1) as usize) && (r matches Some(v) && v@.len()
                        == 0)
                } else {
                    *final(self) == *old(self) && r is None
                },
                None => final(self).state == Some((old(self).items - 1) as usize) && (r matches
                    Some(v) && v@.len() == 0),
            },
    {
        match self.state {
            Some(cur) => {
                if cur > 0 {
                    self.state = Some(cur - 1);
                    Some(Vec::new())
                } else {
                    None
                }
            }
            None => {
                self.state = Some(self.items - 1);
                Some(Vec::new())
            }
        }
    }

    fn down(&mut self) -> (r: PollResult)
        requires
            old(self).items >= 1,
        ensures
            final(self).items == old(self).items,
            match old(self).state {
                Some(cur) => if cur < old(self).items - 1 {
                    final(self).state == Some((cur + 1) as usize) && (r matches Some(v) && v@.len()
                        == 0)
                } else {
                    *final(self) == *old(self) && r is None
                },
                None => final(self).state == Some(0usize) && (r matches Some(v) && v@.len() == 0),
            },
    {
        match self.state {
            Some(cur) => {
                if cur < self.items - 1 {
                    self.state = Some(cur + 1);
                    Some(Vec::new())
                } else {
                    None
                }
            }
            None => {
                self.state = Some(0);
                Some(Vec::new())
            }
        }
    }

    fn select(&self) -> (r: PollResult)
        ensures
            match self.state {
                Some(sel) => r matches Some(v) && v@ == seq![
                    Action::Stat(sel),
                    Action::Scene(AppScene::CGroupTree),
                ],
                None => r is None,
            },
    {
        match self.state {
            Some(sel) => {
                let mut v: Vec<Action> = Vec::new();
                v.push(Action::Stat(sel));
                v.push(Action::Scene(AppScene::CGroupTree));
                proof {
                    assert(v@ =~= seq![Action::Stat(sel), Action::Scene(AppScene::CGroupTree)]);
                }
                Some(v)
            }
            None => None,
        }
    }

    /// Handles one key of the chooser.
    pub fn key_event(&mut self, key: Key) -> (r: PollResult)
        requires
            old(self).items >= 1,
        ensures
            stat_choose_key_event(*old(self), key, *final(self), r),
    {
        match key {
            Key::Esc => {
                let mut v: Vec<Action> = Vec::new();
                v.push(Action::Scene(AppScene::CGroupTree));
                proof {
                    assert(v@ =~= seq![Action::Scene(AppScene::CGroupTree)]);
                }
                Some(v)
            }
            Key::Down => self.down(),
            Key::Up => self.up(),
            Key::Enter => self.select(),
            Key::Char(c) => {
                if c == 'q' || c == 'h' {
                    let mut v: Vec<Action> = Vec::new();
                    v.push(Action::Scene(AppScene::CGroupTree));
                    proof {
                        assert(v@ =~= seq![Action::Scene(AppScene::CGroupTree)]);
                    }
                    Some(v)
                } else if c == ' ' {
                    self.select()
                } else {
                    None
                }
            }
            _ => None,
        }
    }
}

} // verus!
