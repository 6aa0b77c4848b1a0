//! The help scenes: static text with two-axis scrolling, and the builders
//! of the two key-binding listings.

use vstd::prelude::*;

use crate::app::{Action, AppScene, Key, PollResult};

verus! {

/// One help line: free text, or a key binding with its description.
pub enum HelpLine {
    Line(String),
    Key(String, String),
}

/// One help line, at the specification level.
pub enum HelpLineView {
    Line(Seq<char>),
    Key(Seq<char>, Seq<char>),
}

pub open spec fn help_line_view(l: HelpLine) -> HelpLineView {
    match l {
        HelpLine::Line(s) => HelpLineView::Line(s@),
        HelpLine::Key(k, d) => HelpLineView::Key(k@, d@),
    }
}

/// A line list, as its views.
pub open spec fn lines_view(s: Seq<HelpLine>) -> Seq<HelpLineView> {
    s.map_values(|l: HelpLine| help_line_view(l))
}

/// A static help scene: its lines, the widest key name (for alignment),
/// and the scroll position against layout-derived bounds.
pub struct HelpScene {
    pub lines: Vec<HelpLine>,
    pub max_key: usize,
    pub cur_scroll_x: u16,
    pub max_scroll_x: u16,
    pub cur_scroll_y: u16,
    pub max_scroll_y: u16,
}

/// One scroll step along one axis: the position moves by one where the
/// layout bounds allow it; a redraw is requested exactly when it moved.
pub open spec fn help_scrolled(o: HelpScene, n: HelpScene, r: PollResult, dx: int, dy: int) -> bool {
    let can = (dx > 0 && o.cur_scroll_x < o.max_scroll_x) || (dx < 0 && o.cur_scroll_x > 0) || (dy
        > 0 && o.cur_scroll_y < o.max_scroll_y) || (dy < 0 && o.cur_scroll_y > 0);
    if can {
        &&& n.cur_scroll_x as int == o.cur_scroll_x + dx
        &&& n.cur_scroll_y as int == o.cur_scroll_y + dy
        &&& n.lines == o.lines
        &&& n.max_key == o.max_key
        &&& n.max_scroll_x == o.max_scroll_x
        &&& n.max_scroll_y == o.max_scroll_y
        &&& r matches Some(v) && v@.len() == 0
    } else {
        n == o && r is None
    }
}

/// How one key transforms a help scene: `q`, `h` and escape leave for the
/// tree scene, the arrows scroll within the layout bounds, anything else
/// means nothing.
pub open spec fn help_key_event(o: HelpScene, key: Key, n: HelpScene, r: PollResult) -> bool {
    &&& ((key == Key::Esc || key == Key::Char('q') || key == Key::Char('h')) ==> (r matches Some(v)
        && v@ == seq![Action::Scene(AppScene::CGroupTree)] && n == o))
    &&& (!(key == Key::Esc || key == Key::Char('q') || key == Key::Char('h') || key == Key::Up
        || key == Key::Down || key == Key::Left || key == Key::Right) ==> (r is None && n == o))
    &&& (key == Key::Up ==> help_scrolled(o, n, r, 0, -1))
    &&& (key == Key::Down ==> help_scrolled(o, n, r, 0, 1))
    &&& (key == Key::Left ==> help_scrolled(o, n, r, -1, 0))
    &&& (key == Key::Right ==> help_scrolled(o, n, r, 1, 0))
    &&& n.lines == o.lines
    &&& n.max_key == o.max_key
    &&& n.max_scroll_x == o.max_scroll_x
    &&& n.max_scroll_y == o.max_scroll_y
}

impl HelpScene {
    pub fn new() -> (r: HelpScene)
        ensures
            r.lines@.len() == 0,
            r.max_key == 0,
            r.cur_scroll_x == 0,
            r.cur_scroll_y == 0,
            r.max_scroll_x == 0,
            r.max_scroll_y == 0,
    {
        HelpScene {
            lines: Vec::new(),
            max_key: 0,
            cur_scroll_x: 0,
            max_scroll_x: 0,
            cur_scroll_y: 0,
            max_scroll_y: 0,
        }
    }

    /// Appends a free-text line.
    pub fn add_line(&mut self, line: &str)
        ensures
            lines_view(final(self).lines@) == lines_view(old(self).lines@).push(
                HelpLineView::Line(line@),
            ),
            final(self).max_key == old(self).max_key,
            final(self).cur_scroll_x == old(self).cur_scroll_x,
            final(self).cur_scroll_y == old(self).cur_scroll_y,
            final(self).max_scroll_x == old(self).max_scroll_x,
            final(self).max_scroll_y == old(self).max_scroll_y,
    {
        self.lines.push(HelpLine::Line(String::from_str(line)));
        proof {
            assert(lines_view(self.lines@) =~= lines_view(old(self).lines@).push(
                HelpLineView::Line(line@),
            ));
        }
    }

    /// Appends a key binding, widening the key column if needed.
    pub fn add_key(&mut self, key: &str, desc: &str)
        ensures
            lines_view(final(self).lines@) == lines_view(old(self).lines@).push(
                HelpLineView::Key(key@, desc@),
            ),
            final(self).max_key == if key@.len() > old(self).max_key {
                key@.len() as int
            } else {
                old(self).max_key as int
            },
            final(self).cur_scroll_x == old(self).cur_scroll_x,
            final(self).cur_scroll_y == old(self).cur_scroll_y,
            final(self).max_scroll_x == old(self).max_scroll_x,
            final(self).max_scroll_y == old(self).max_scroll_y,
    {
        let klen = key.unicode_len();
        self.lines.push(HelpLine::Key(String::from_str(key), String::from_str(desc)));
        if klen > self.max_key {
            self.max_key = klen;
        }
        proof {
            assert(lines_view(self.lines@) =~= lines_view(old(self).lines@).push(
                HelpLineView::Key(key@, desc@),
            ));
        }
    }

    /// Clamps the scroll position to freshly computed layout bounds.
    pub fn set_scroll_bounds(&mut self, max_x: u16, max_y: u16)
        ensures
            final(self).max_scroll_x == max_x,
            final(self).max_scroll_y == max_y,
            final(self).cur_scroll_x == if old(self).cur_scroll_x > max_x {
                max_x
            } else {
                old(self).cur_scroll_x
            },
            final(self).cur_scroll_y == if old(self).cur_scroll_y > max_y {
                max_y
            } else {
                old(self).cur_scroll_y
            },
            final(self).lines == old(self).lines,
            final(self).max_key == old(self).max_key,
    {
        self.max_scroll_x = max_x;
        self.max_scroll_y = max_y;
        if self.cur_scroll_x > max_x {
            self.cur_scroll_x = max_x;
        }
        if self.cur_scroll_y > max_y {
            self.cur_scroll_y = max_y;
        }
    }

    fn scroll_help_up(&mut self) -> (r: PollResult)
        ensures
            help_scrolled(*old(self), *final(self), r, 0, -1),
    {
        if self.cur_scroll_y > 0 {
            self.cur_scroll_y = self.cur_scroll_y - 1;
            Some(Vec::new())
        } else {
            None
        }
    }

    fn scroll_help_down(&mut self) -> (r: PollResult)
        ensures
            help_scrolled(*old(self), *final(self), r, 0, 1),
    {
        if self.cur_scroll_y < self.max_scroll_y {
            self.cur_scroll_y = self.cur_scroll_y + 1;
            Some(Vec::new())
        } else {
            None
        }
    }

    fn scroll_help_left(&mut self) -> (r: PollResult)
        ensures
            help_scrolled(*old(self), *final(self), r, -1, 0),
    {
        if self.cur_scroll_x > 0 {
            self.cur_scroll_x = self.cur_scroll_x - 1;
            Some(Vec::new())
        } else {
            None
        }
    }

    fn scroll_help_right(&mut self) -> (r: PollResult)
        ensures
            help_scrolled(*old(self), *final(self), r, 1, 0),
    {
        if self.cur_scroll_x < self.max_scroll_x {
            self.cur_scroll_x = self.cur_scroll_x + 1;
            Some(Vec::new())
        } else {
            None
        }
    }

    /// Handles one key: `q`, `h` and escape leave for the tree scene, the
    /// arrows scroll, anything else means nothing.
    pub fn key_event(&mut self, key: Key) -> (r: PollResult)
        ensures
            help_key_event(*old(self), key, *final(self), r),
    {
        match key {
            Key::Esc | Key::Char('q') | Key::Char('h') => {
                let mut v: Vec<Action> = Vec::new();
                v.push(Action::Scene(AppScene::CGroupTree));
                proof {
                    assert(v@ =~= seq![Action::Scene(AppScene::CGroupTree)]);
                }
                Some(v)
            }
            Key::Down => self.scroll_help_down(),
            Key::Up => self.scroll_help_up(),
            Key::Left => self.scroll_help_left(),
            Key::Right => self.scroll_help_right(),
            _ => None,
        }
    }
}

/// The lines of the tree scene's help screen.
pub open spec fn tree_help_lines() -> Seq<HelpLineView> {
    seq![
        HelpLineView::Line("Key bindings for cgroup memory display:"@),
        HelpLineView::Line(""@),
        HelpLineView::Key("Up Arrow"@, "Move selection up."@),
        HelpLineView::Key("Down Arrow"@, "Move selection down."@),
        HelpLineView::Key("Left Arrow"@, "Collapse tree node if on a parent node or move to parent otherwise."@),
        HelpLineView::Key("Right Arrow"@, "Expand tree node if on a parent node."@),
        HelpLineView::Key("Home"@, "Move selection to the top."@),
        HelpLineView::Key("End"@, "Move selection to the end."@),
        HelpLineView::Key("n"@, "Sort by cgroup name. Pressing again toggles ascending / descending sort order."@),
        HelpLineView::Key("s"@, "Sort by statistic. Pressing again toggles ascending / descending sort order."@),
        HelpLineView::Key("c"@, "Collapse all expanded nodes."@),
        HelpLineView::Key("z"@, "Select statistic to show."@),
        HelpLineView::Key("["@, "Move to previous statistic."@),
        HelpLineView::Key("]"@, "Move to next statistic."@),
        HelpLineView::Key("p"@, "Show processes for the selected cgroup."@),
        HelpLineView::Key("P"@, "Show processes for the selected cgroup and all descendents."@),
        HelpLineView::Key("t"@, "Show threads for the selected cgroup."@),
        HelpLineView::Key("T"@, "Show threads for the selected cgroup and all descendents."@),
        HelpLineView::Key("r"@, "Refresh the list."@),
        HelpLineView::Key("h"@, "Shows this help screen."@),
        HelpLineView::Key("Esc / q"@, "Exit the program."@),
        HelpLineView::Line(""@),
        HelpLineView::Line("Press q, h or Esc to exit help"@),
    ]
}

/// The lines of the process scene's help screen.
pub open spec fn procs_help_lines() -> Seq<HelpLineView> {
    seq![
        HelpLineView::Line("Key bindings for process display:"@),
        HelpLineView::Line(""@),
        HelpLineView::Key("Up Arrow"@, "Move selection up."@),
        HelpLineView::Key("Down Arrow"@, "Move selection down."@),
        HelpLineView::Key("Page Up"@, "Move selection up a page."@),
        HelpLineView::Key("Page Down"@, "Move selection down a page."@),
        HelpLineView::Key("Home"@, "Move selection to the top."@),
        HelpLineView::Key("End"@, "Move selection to the end."@),
        HelpLineView::Key("a"@, "Toggle between processes and threads."@),
        HelpLineView::Key("c"@, "Toggle child cgroup processes/threads."@),
        HelpLineView::Key("n"@, "Sort by command. Pressing again toggles ascending / descending sort order."@),
        HelpLineView::Key("s"@, "Sort by memory usage / PID. Pressing again toggles ascending / descending sort order."@),
        HelpLineView::Key("["@, "Move to previous statistic."@),
        HelpLineView::Key("]"@, "Move to next statistic."@),
        HelpLineView::Key("r"@, "Refresh the list."@),
        HelpLineView::Key("h"@, "Shows this help screen."@),
        HelpLineView::Key("Esc / q"@, "Exit the window."@),
        HelpLineView::Line(""@),
        HelpLineView::Line("Press q, h or Esc to exit help"@),
    ]
}

/// The key bindings of the cgroup tree scene.
pub fn build_cgroup_tree_help_scene() -> (r: HelpScene)
    ensures
        lines_view(r.lines@) == tree_help_lines(),
        r.lines@.len() == 23,
        r.max_key == "Right Arrow"@.len(),
        r.cur_scroll_x == 0,
        r.cur_scroll_y == 0,
        r.max_scroll_x == 0,
        r.max_scroll_y == 0,
{
    let mut help = HelpScene::new();

    help.add_line("Key bindings for cgroup memory display:");
    help.add_line("");

    help.add_key("Up Arrow", "Move selection up.");
    help.add_key("Down Arrow", "Move selection down.");
    help.add_key(
        "Left Arrow",
        "Collapse tree node if on a parent node or move to parent otherwise.",
    );
    help.add_key("Right Arrow", "Expand tree node if on a parent node.");
    help.add_key("Home", "Move selection to the top.");
    help.add_key("End", "Move selection to the end.");
    help.add_key(
        "n",
        "Sort by cgroup name. Pressing again toggles ascending / descending sort order.",
    );
    help.add_key(
        "s",
        "Sort by statistic. Pressing again toggles ascending / descending sort order.",
    );
    help.add_key("c", "Collapse all expanded nodes.");
    help.add_key("z", "Select statistic to show.");
    help.add_key("[", "Move to previous statistic.");
    help.add_key("]", "Move to next statistic.");
    help.add_key("p", "Show processes for the selected cgroup.");
    help.add_key("P", "Show processes for the selected cgroup and all descendents.");
    help.add_key("t", "Show threads for the selected cgroup.");
    help.add_key("T", "Show threads for the selected cgroup and all descendents.");
    help.add_key("r", "Refresh the list.");
    help.add_key("h", "Shows this help screen.");
    help.add_key("Esc / q", "Exit the program.");

    help.add_line("");
    help.add_line("Press q, h or Esc to exit help");

    proof {
        assert(lines_view(help.lines@) =~= tree_help_lines());
        lemma_tree_help_max_key();
    }
    help
}

/// The widest key name of the tree help is `Right Arrow`.
proof fn lemma_tree_help_max_key()
    ensures
        "Up Arrow"@.len() <= "Right Arrow"@.len(),
        "Down Arrow"@.len() <= "Right Arrow"@.len(),
        "Left Arrow"@.len() <= "Right Arrow"@.len(),
        "Home"@.len() <= "Right Arrow"@.len(),
        "End"@.len() <= "Right Arrow"@.len(),
        "n"@.len() <= "Right Arrow"@.len(),
        "s"@.len() <= "Right Arrow"@.len(),
        "c"@.len() <= "Right Arrow"@.len(),
        "z"@.len() <= "Right Arrow"@.len(),
        "["@.len() <= "Right Arrow"@.len(),
        "]"@.len() <= "Right Arrow"@.len(),
        "p"@.len() <= "Right Arrow"@.len(),
        "P"@.len() <= "Right Arrow"@.len(),
        "t"@.len() <= "Right Arrow"@.len(),
        "T"@.len() <= "Right Arrow"@.len(),
        "r"@.len() <= "Right Arrow"@.len(),
        "h"@.len() <= "Right Arrow"@.len(),
        "Esc / q"@.len() <= "Right Arrow"@.len(),
{
    reveal_strlit("Up Arrow");
    reveal_strlit("Down Arrow");
    reveal_strlit("Left Arrow");
    reveal_strlit("Right Arrow");
    reveal_strlit("Home");
    reveal_strlit("End");
    reveal_strlit("n");
    reveal_strlit("s");
    reveal_strlit("c");
    reveal_strlit("z");
    reveal_strlit("[");
    reveal_strlit("]");
    reveal_strlit("p");
    reveal_strlit("P");
    reveal_strlit("t");
    reveal_strlit("T");
    reveal_strlit("r");
    reveal_strlit("h");
    reveal_strlit("Esc / q");
}

/// The key bindings of the process table scene.
pub fn build_procs_help_scene() -> (r: HelpScene)
    ensures
        lines_view(r.lines@) == procs_help_lines(),
        r.lines@.len() == 19,
        r.max_key == "Down Arrow"@.len(),
        r.cur_scroll_x == 0,
        r.cur_scroll_y == 0,
        r.max_scroll_x == 0,
        r.max_scroll_y == 0,
{
    let mut help = HelpScene::new();

    help.add_line("Key bindings for process display:");
    help.add_line("");

    help.add_key("Up Arrow", "Move selection up.");
    help.add_key("Down Arrow", "Move selection down.");
    help.add_key("Page Up", "Move selection up a page.");
    help.add_key("Page Down", "Move selection down a page.");
    help.add_key("Home", "Move selection to the top.");
    help.add_key("End", "Move selection to the end.");
    help.add_key("a", "Toggle between processes and threads.");
    help.add_key("c", "Toggle child cgroup processes/threads.");
    help.add_key(
        "n",
        "Sort by command. Pressing again toggles ascending / descending sort order.",
    );
    help.add_key(
        "s",
        "Sort by memory usage / PID. Pressing again toggles ascending / descending sort order.",
    );
    help.add_key("[", "Move to previous statistic.");
    help.add_key("]", "Move to next statistic.");
    help.add_key("r", "Refresh the list.");
    help.add_key("h", "Shows this help screen.");
    help.add_key("Esc / q", "Exit the window.");

    help.add_line("");
    help.add_line("Press q, h or Esc to exit help");

    proof {
        assert(lines_view(help.lines@) =~= procs_help_lines());
        lemma_procs_help_max_key();
    }
    help
}

/// The widest key name of the process help is `Down Arrow`.
proof fn lemma_procs_help_max_key()
    ensures
        "Up Arrow"@.len() <= "Down Arrow"@.len(),
        "Page Up"@.len() <= "Down Arrow"@.len(),
        "Page Down"@.len() <= "Down Arrow"@.len(),
        "Home"@.len() <= "Down Arrow"@.len(),
        "End"@.len() <= "Down Arrow"@.len(),
        "a"@.len() <= "Down Arrow"@.len(),
        "c"@.len() <= "Down Arrow"@.len(),
        "n"@.len() <= "Down Arrow"@.len(),
        "s"@.len() <= "Down Arrow"@.len(),
        "["@.len() <= "Down Arrow"@.len(),
        "]"@.len() <= "Down Arrow"@.len(),
        "r"@.len() <= "Down Arrow"@.len(),
        "h"@.len() <= "Down Arrow"@.len(),
        "Esc / q"@.len() <= "Down Arrow"@.len(),
{
    reveal_strlit("Up Arrow");
    reveal_strlit("Down Arrow");
    reveal_strlit("Page Up");
    reveal_strlit("Page Down");
    reveal_strlit("Home");
    reveal_strlit("End");
    reveal_strlit("a");
    reveal_strlit("c");
    reveal_strlit("n");
    reveal_strlit("s");
    reveal_strlit("[");
    reveal_strlit("]");
    reveal_strlit("r");
    reveal_strlit("h");
    reveal_strlit("Esc / q");
}

} // verus!
