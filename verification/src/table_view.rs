//! View state of the process table: the loaded entries or the loading
//! error, the selected row kept by process id across rebuilds, and
//! navigation over the rows.

use vstd::prelude::*;

use crate::app::PollResult;
use crate::procs::Proc;

verus! {

/// The first row holding the given process id, or -1.
pub open spec fn pid_index(s: Seq<Proc>, pid: usize) -> int
    decreases s.len(),
{
    if s.len() == 0 {
        -1
    } else if s[0].pid == pid {
        0
    } else {
        let r = pid_index(s.drop_first(), pid);
        if r < 0 {
            -1
        } else {
            r + 1
        }
    }
}

pub proof fn lemma_pid_index(s: Seq<Proc>, pid: usize)
    ensures
        pid_index(s, pid) == -1 ==> forall|j: int| 0 <= j < s.len() ==> (#[trigger] s[j]).pid
            != pid,
        pid_index(s, pid) >= 0 ==> {
            &&& pid_index(s, pid) < s.len()
            &&& s[pid_index(s, pid)].pid == pid
            &&& forall|j: int| 0 <= j < pid_index(s, pid) ==> (#[trigger] s[j]).pid != pid
        },
    decreases s.len(),
{
    if s.len() > 0 && s[0].pid != pid {
        lemma_pid_index(s.drop_first(), pid);
        let r = pid_index(s.drop_first(), pid);
        if r < 0 {
            assert forall|j: int| 0 <= j < s.len() implies (#[trigger] s[j]).pid != pid by {
                if j > 0 {
                    assert(s.drop_first()[j - 1] == s[j]);
                }
            }
        } else {
            assert(s.drop_first()[r] == s[r + 1]);
            assert forall|j: int| 0 <= j < r + 1 implies (#[trigger] s[j]).pid != pid by {
                if j > 0 {
                    assert(s.drop_first()[j - 1] == s[j]);
                }
            }
        }
    }
}

/// The id of the row a table has selected, if the selection is in range.
pub open spec fn selected_pid(t: ProcsTable) -> Option<usize> {
    match t.selected {
        Some(i) => if i < t.procs@.len() {
            Some(t.procs@[i as int].pid)
        } else {
            None
        },
        None => None,
    }
}

/// View state of the process table.
pub struct ProcsTable {
    pub error: Option<String>,
    pub procs: Vec<Proc>,
    pub selected: Option<usize>,
    pub page_size: u16,
}

/// Moving the selection to an absolute row: `new_row` counted from 1, or
/// from the end when negative.
pub open spec fn table_moved_to(o: ProcsTable, n: ProcsTable, r: PollResult, new_row: int) -> bool {
    let len = o.procs@.len() as int;
    if len == 0 {
        r is None && n == o
    } else {
        let target: int = if new_row < 0 {
            if -new_row > len {
                0
            } else {
                len + new_row
            }
        } else if new_row == 0 {
            len - 1
        } else if new_row - 1 > len - 1 {
            len - 1
        } else {
            new_row - 1
        };
        &&& n.selected == Some(target as usize)
        &&& n.procs == o.procs
        &&& n.error == o.error
        &&& n.page_size == o.page_size
        &&& r matches Some(v) && v@.len() == 0
    }
}

/// Moving the selection by `amount` rows, stopping at the ends; with no
/// selection the movement enters the table `amount` rows deep.
pub open spec fn table_moved_by(o: ProcsTable, n: ProcsTable, r: PollResult, amount: int) -> bool {
    let len = o.procs@.len() as int;
    if amount == 0 || len == 0 {
        r is None && n == o
    } else {
        match o.selected {
            Some(cur) => {
                let newi: int = if amount > 0 {
                    if cur + amount > len - 1 {
                        len - 1
                    } else {
                        cur + amount
                    }
                } else {
                    if cur < -amount {
                        0
                    } else {
                        cur + amount
                    }
                };
                if newi != cur {
                    &&& n.selected == Some(newi as usize)
                    &&& n.procs == o.procs
                    &&& n.error == o.error
                    &&& n.page_size == o.page_size
                    &&& r matches Some(v) && v@.len() == 0
                } else {
                    r is None && n == o
                }
            },
            None => table_moved_to(o, n, r, amount),
        }
    }
}

/// How a successful rebuild reconciles the table with fresh rows: the
/// rows are taken as given, the error clears, and the previously selected
/// process id stays selected at its new position if it is still listed.
pub open spec fn table_rebuilt_ok(o: ProcsTable, n: ProcsTable, rows: Seq<Proc>) -> bool {
    &&& n.procs@ == rows
    &&& n.error is None
    &&& n.page_size == o.page_size
    &&& match selected_pid(o) {
        Some(pid) => if pid_index(n.procs@, pid) >= 0 {
            n.selected == Some(pid_index(n.procs@, pid) as usize)
        } else {
            n.selected is None
        },
        None => n.selected is None,
    }
}

impl ProcsTable {
    /// A fresh, empty table.
    pub fn new() -> (r: ProcsTable)
        ensures
            r.error is None,
            r.procs@.len() == 0,
            r.selected is None,
            r.page_size == 0,
    {
        ProcsTable { error: None, procs: Vec::new(), selected: None, page_size: 0 }
    }

    /// Replaces the rows with a freshly loaded list (or records the
    /// loading error, leaving no rows), carrying the selection over by
    /// process id: the previously selected id stays selected at its new
    /// position if it is still listed, and the selection empties
    /// otherwise.
    pub fn build_table(&mut self, loaded: Result<Vec<Proc>, String>)
        ensures
            match loaded {
                Ok(procs) => final(self).procs == procs && final(self).error is None,
                Err(m) => final(self).procs@.len() == 0 && (final(self).error matches Some(e) && e
                    == m),
            },
            match selected_pid(*old(self)) {
                Some(pid) => if pid_index(final(self).procs@, pid) >= 0 {
                    final(self).selected == Some(pid_index(final(self).procs@, pid) as usize)
                } else {
                    final(self).selected is None
                },
                None => final(self).selected is None,
            },
            final(self).page_size == old(self).page_size,
    {
        let old_pid: Option<usize> = match self.selected {
            Some(i) => if i < self.procs.len() {
                Some(self.procs[i].pid)
            } else {
                None
            },
            None => None,
        };
        match loaded {
            Ok(procs) => {
                self.procs = procs;
                self.error = None;
            }
            Err(m) => {
                self.procs = Vec::new();
                self.error = Some(m);
            }
        }
        match old_pid {
            None => {
                self.selected = None;
            }
            Some(pid) => {
                let n = self.procs.len();
                let mut i: usize = 0;
                self.selected = None;
                while i < n
                    invariant
                        0 <= i <= n,
                        n == self.procs@.len(),
                        self.selected is None,
                        self.page_size == old(self).page_size,
                        selected_pid(*old(self)) == Some(pid),
                        match loaded {
                            Ok(procs) => self.procs == procs && self.error is None,
                            Err(m) => self.procs@.len() == 0 && (self.error matches Some(e) && e
                                == m),
                        },
                        forall|j: int| 0 <= j < i ==> (#[trigger] self.procs@[j]).pid != pid,
                    decreases n - i,
                {
                    if self.procs[i].pid == pid {
                        self.selected = Some(i);
                        proof {
                            lemma_pid_index(self.procs@, pid);
                            assert(pid_index(self.procs@, pid) == i as int) by {
                                let r = pid_index(self.procs@, pid);
                                if r < i as int {
                                    assert(self.procs@[r].pid == pid);
                                } else if r > i as int {
                                    assert(self.procs@[i as int].pid != pid);
                                }
                            }
                        }
                        return ;
                    }
                    i = i + 1;
                }
                proof {
                    lemma_pid_index(self.procs@, pid);
                    assert(pid_index(self.procs@, pid) == -1) by {
                        let r = pid_index(self.procs@, pid);
                        if r >= 0 {
                            assert(self.procs@[r].pid == pid);
                        }
                    }
                }
            }
        }
    }

    /// The selected row.
    pub fn selected(&self) -> (r: Option<usize>)
        ensures
            r == self.selected,
    {
        self.selected
    }

    /// Forgets the selection.
    pub fn reset(&mut self)
        ensures
            final(self).selected is None,
            final(self).procs == old(self).procs,
            final(self).error == old(self).error,
            final(self).page_size == old(self).page_size,
    {
        self.selected = None;
    }

    /// Records the number of rows one page of the display holds.
    pub fn set_page_size(&mut self, rows: u16)
        ensures
            final(self).page_size == rows,
            final(self).procs == old(self).procs,
            final(self).error == old(self).error,
            final(self).selected == old(self).selected,
    {
        self.page_size = rows;
    }

    /// Moves the selection to an absolute position: row `new_row` counted
    /// from 1, or, when `new_row` is negative, counted from the end.
    fn move_to(&mut self, new_row: i32) -> (r: PollResult)
        ensures
            table_moved_to(*old(self), *final(self), r, new_row as int),
    {
        let len = self.procs.len();
        if len == 0 {
            return None;
        }
        let new_row_i: i128 = new_row as i128;
        let leni: i128 = len as i128;
        let target: usize = if new_row < 0 {
            if -new_row_i > leni {
                0
            } else {
                (leni + new_row_i) as usize
            }
        } else if new_row == 0 {
            len - 1
        } else if new_row_i - 1 > leni - 1 {
            len - 1
        } else {
            (new_row_i - 1) as usize
        };
        self.selected = Some(target);
        Some(Vec::new())
    }

    /// Moves the selection by `amount` rows, stopping at the ends; with
    /// nothing selected the movement lands `amount` rows into the table
    /// (from the top moving down, from the bottom moving up).
    fn move_by(&mut self, amount: i32) -> (r: PollResult)
        ensures
            table_moved_by(*old(self), *final(self), r, amount as int),
    {
        if amount == 0 || self.procs.len() == 0 {
            return None;
        }
        let len = self.procs.len();
        match self.selected {
            Some(cur) => {
                let curi: i128 = cur as i128;
                let leni: i128 = len as i128;
                let am: i128 = amount as i128;
                let newi: usize = if amount > 0 {
                    if curi + am > leni - 1 {
                        len - 1
                    } else {
                        (curi + am) as usize
                    }
                } else {
                    if curi < -am {
                        0
                    } else {
                        (curi + am) as usize
                    }
                };
                if newi != cur {
                    self.selected = Some(newi);
                    Some(Vec::new())
                } else {
                    None
                }
            }
            None => self.move_to(amount),
        }
    }

    /// Moves the selection one row up.
    pub fn up(&mut self) -> (r: PollResult)
        ensures
            table_moved_by(*old(self), *final(self), r, -1),
    {
        self.move_by(-1)
    }

    /// Moves the selection one row down.
    pub fn down(&mut self) -> (r: PollResult)
        ensures
            table_moved_by(*old(self), *final(self), r, 1),
    {
        self.move_by(1)
    }

    /// Moves the selection a page up.
    pub fn pgup(&mut self) -> (r: PollResult)
        ensures
            table_moved_by(*old(self), *final(self), r, -(old(self).page_size as int)),
    {
        let pg = self.page_size;
        self.move_by(-(pg as i32))
    }

    /// Moves the selection a page down.
    pub fn pgdown(&mut self) -> (r: PollResult)
        ensures
            table_moved_by(*old(self), *final(self), r, old(self).page_size as int),
    {
        let pg = self.page_size;
        self.move_by(pg as i32)
    }

    /// Selects the first row.
    pub fn home(&mut self) -> (r: PollResult)
        ensures
            table_moved_to(*old(self), *final(self), r, 1),
    {
        self.move_to(1)
    }

    /// Selects the last row.
    pub fn end(&mut self) -> (r: PollResult)
        ensures
            table_moved_to(*old(self), *final(self), r, -1),
    {
        self.move_to(-1)
    }
}

} // verus!
