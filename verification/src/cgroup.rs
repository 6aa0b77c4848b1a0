//! The cgroup tree loader: walks a directory snapshot depth first, extracts
//! the chosen statistic per node, aggregates it bottom up with
//! cumulative or plain-count semantics, synthesizes `<self>` entries for a
//! node's own contribution, and sorts each level of children.

use vstd::prelude::*;

use crate::file_proc::{
    fp_stat, fp_wf, get_file_processor, lookup_lines, parse_ok, stat_matches,
    FileProcessor, StatRes,
};
use crate::fsdata::FsDir;
use crate::stats::{Stat, StatType};
use crate::sorting::{
    insert_le, lemma_ins_pos, lemma_sort_by_le_len, sort_by_le, total_preorder,
};
use crate::text::{clone_strings, lemma_segs_cmp_props, lemma_segs_cmp_trans, segs_cmp, segs_cmp_exec, ws_split};

verus! {

/// One node of the loaded tree: a cgroup directory or a synthetic `<self>`
/// entry.  The path is relative to the loaded root (the root itself has the
/// empty path); a node whose statistic could not be read carries the error
/// message and a zero statistic.
pub struct CGroup {
    pub path: Vec<String>,
    pub error: Option<String>,
    pub stat: usize,
    pub children: Vec<CGroup>,
}

/// An option of a string, seen as an option of its characters.
pub open spec fn opt_str_view(o: Option<String>) -> Option<Seq<char>> {
    match o {
        Some(s) => Some(s@),
        None => None,
    }
}

impl CGroup {
    fn new(path: Vec<String>) -> (r: CGroup)
        ensures
            r.path == path,
            r.error is None,
            r.stat == 0,
            r.children@.len() == 0,
    {
        CGroup { path, error: None, stat: 0, children: Vec::new() }
    }

    fn new_error(path: Vec<String>, msg: String) -> (r: CGroup)
        ensures
            r.path == path,
            r.error == Some(msg),
            r.stat == 0,
            r.children@.len() == 0,
    {
        CGroup { path, error: Some(msg), stat: 0, children: Vec::new() }
    }

    pub fn path(&self) -> (r: &Vec<String>)
        ensures
            r == &self.path,
    {
        &self.path
    }

    pub fn stat(&self) -> (r: usize)
        ensures
            r == self.stat,
    {
        self.stat
    }

    pub fn children(&self) -> (r: &Vec<CGroup>)
        ensures
            r == &self.children,
    {
        &self.children
    }

    pub fn error(&self) -> (r: &Option<String>)
        ensures
            r == &self.error,
    {
        &self.error
    }
}

/// The order a level of children is sorted in.
#[derive(Debug, Clone, Copy, PartialEq, Eq, Structural)]
pub enum CGroupSortOrder {
    NameAsc,
    NameDsc,
    StatAsc,
    StatDsc,
}

/// The sort's "not above" relation for each order: by path, segment-wise
/// and by character, or by the aggregated statistic; descending orders flip
/// the operands, so ties keep their relative order either way.
pub open spec fn cg_le(sort: CGroupSortOrder, a: CGroup, b: CGroup) -> bool {
    match sort {
        CGroupSortOrder::NameAsc => segs_cmp(a.path.deep_view(), b.path.deep_view()) <= 0,
        CGroupSortOrder::NameDsc => segs_cmp(b.path.deep_view(), a.path.deep_view()) <= 0,
        CGroupSortOrder::StatAsc => a.stat <= b.stat,
        CGroupSortOrder::StatDsc => b.stat <= a.stat,
    }
}

/// The same relation as a function value, for the sort specification.
pub open spec fn cg_le_fn(sort: CGroupSortOrder) -> spec_fn(CGroup, CGroup) -> bool {
    |a: CGroup, b: CGroup| cg_le(sort, a, b)
}

pub proof fn lemma_cg_le_total(sort: CGroupSortOrder)
    ensures
        total_preorder(cg_le_fn(sort)),
{
    let le = cg_le_fn(sort);
    assert forall|a: CGroup, b: CGroup| #[trigger] le(a, b) || #[trigger] le(b, a) by {
        lemma_segs_cmp_props(a.path.deep_view(), b.path.deep_view());
        lemma_segs_cmp_props(b.path.deep_view(), a.path.deep_view());
    }
    assert forall|a: CGroup, b: CGroup, c: CGroup|
        #[trigger] le(a, b) && #[trigger] le(b, c) implies le(a, c) by {
        match sort {
            CGroupSortOrder::NameAsc => {
                lemma_segs_cmp_trans(a.path.deep_view(), b.path.deep_view(), c.path.deep_view());
            }
            CGroupSortOrder::NameDsc => {
                lemma_segs_cmp_trans(c.path.deep_view(), b.path.deep_view(), a.path.deep_view());
            }
            _ => {
            }
        }
    }
}

/// Compares two nodes under the active order.
fn cg_le_exec(sort: CGroupSortOrder, a: &CGroup, b: &CGroup) -> (r: bool)
    ensures
        r == cg_le(sort, *a, *b),
{
    match sort {
        CGroupSortOrder::NameAsc => segs_cmp_exec(&a.path, &b.path) <= 0,
        CGroupSortOrder::NameDsc => segs_cmp_exec(&b.path, &a.path) <= 0,
        CGroupSortOrder::StatAsc => a.stat <= b.stat,
        CGroupSortOrder::StatDsc => b.stat <= a.stat,
    }
}

/// Sorts a level of children stably under the given order.
fn sort_cgroups(v: Vec<CGroup>, sort: CGroupSortOrder) -> (r: Vec<CGroup>)
    ensures
        r@ == sort_by_le(cg_le_fn(sort), v@),
{
    let ghost orig = v@;
    let ghost le = cg_le_fn(sort);
    proof {
        assert(orig.len() == v.len());
    }
    let mut rest = v;
    let mut out: Vec<CGroup> = Vec::new();
    proof {
        assert(orig.take(0) =~= Seq::<CGroup>::empty());
        assert(rest@ =~= orig.skip(0));
    }
    let mut k: usize = 0;
    while rest.len() > 0
        invariant
            0 <= k <= orig.len(),
            orig.len() <= usize::MAX,
            k + rest@.len() == orig.len(),
            rest@ =~= orig.skip(k as int),
            out@ == sort_by_le(le, orig.take(k as int)),
            le == cg_le_fn(sort),
        decreases rest@.len(),
    {
        let x = rest.remove(0);
        proof {
            assert(x == orig[k as int]);
            assert(rest@ =~= orig.skip(k as int + 1));
            lemma_sort_by_le_len(le, orig.take(k as int));
        }
        // find the stable insertion point: the first element not below x
        let n = out.len();
        let mut p: usize = 0;
        while p < n && cg_le_exec(sort, &out[p], &x)
            invariant
                0 <= p <= n,
                n == out@.len(),
                forall|j: int| 0 <= j < p ==> cg_le(sort, #[trigger] out@[j], x),
                le == cg_le_fn(sort),
            decreases n - p,
        {
            p = p + 1;
        }
        proof {
            lemma_ins_pos(le, x, out@);
            assert(crate::sorting::ins_pos(le, x, out@) == p as int) by {
                let ip = crate::sorting::ins_pos(le, x, out@);
                if ip < p as int {
                    assert(le(out@[ip], x));
                } else if ip > p as int {
                    assert(!le(out@[p as int], x));
                }
            }
        }
        let ghost before = out@;
        out.insert(p, x);
        proof {
            assert(out@ =~= before.take(p as int) + seq![x] + before.skip(p as int));
            assert(orig.take(k as int + 1).drop_last() =~= orig.take(k as int));
            assert(orig.take(k as int + 1).last() == orig[k as int]);
            assert(out@ == insert_le(le, x, before));
        }
        k = k + 1;
    }
    proof {
        assert(orig.take(k as int) =~= orig);
    }
    out
}

/// The sum of the statistics of a sequence of nodes.
pub open spec fn stat_sum(s: Seq<CGroup>) -> int
    decreases s.len(),
{
    if s.len() == 0 {
        0
    } else {
        stat_sum(s.drop_last()) + s.last().stat
    }
}

pub proof fn lemma_stat_sum_add(a: Seq<CGroup>, b: Seq<CGroup>)
    ensures
        stat_sum(a + b) == stat_sum(a) + stat_sum(b),
    decreases b.len(),
{
    if b.len() == 0 {
        assert(a + b =~= a);
    } else {
        lemma_stat_sum_add(a, b.drop_last());
        assert((a + b).drop_last() =~= a + b.drop_last());
        assert((a + b).last() == b.last());
    }
}

pub proof fn lemma_stat_sum_nonneg(s: Seq<CGroup>)
    ensures
        stat_sum(s) >= 0,
    decreases s.len(),
{
    if s.len() > 0 {
        lemma_stat_sum_nonneg(s.drop_last());
    }
}

/// The path segment of a synthetic self entry.
pub open spec fn self_seg() -> Seq<char> {
    "<self>"@
}

/// A synthetic self entry under `path` holding `value`.
pub open spec fn is_self_node(sn: CGroup, path: Seq<Seq<char>>, value: int) -> bool {
    &&& sn.path.deep_view() == path.push(self_seg())
    &&& sn.error is None
    &&& sn.stat as int == value
    &&& sn.children@.len() == 0
}

/// Saturation at the top of `usize`.
pub open spec fn clamp_usize(x: int) -> int {
    if x <= usize::MAX as int {
        x
    } else {
        usize::MAX as int
    }
}

/// Whether the directory's `cgroup.controllers` file names the `memory`
/// controller on its first line; nothing when the file cannot be read.
pub open spec fn mem_controller(d: FsDir) -> Option<bool> {
    match lookup_lines(d, "cgroup.controllers"@) {
        Err(_) => None,
        Ok(lines) => Some(lines.len() > 0 && ws_split(lines[0]).contains("memory"@)),
    }
}

/// The message recorded for a failed extraction.
pub open spec fn statres_msg(st: StatRes) -> Seq<char> {
    match st {
        StatRes::Io(m) => m,
        StatRes::NotFound => "No value found"@,
        StatRes::Parse(_) => "Invalid number"@,
        StatRes::Num(_) => Seq::empty(),
    }
}

/// The error a node carries: none on success; on failure the extraction
/// message, upgraded to the common cause when the directory demonstrably
/// lacks the memory controller.
pub open spec fn node_error(st: StatRes, d: FsDir) -> Option<Seq<char>> {
    match st {
        StatRes::Num(_) => None,
        _ => Some(
            if mem_controller(d) == Some(false) {
                "No memory controller"@
            } else {
                statres_msg(st)
            },
        ),
    }
}

/// The node's own extracted value: the statistic on success, zero on
/// failure.
pub open spec fn own_of(st: StatRes) -> int {
    match st {
        StatRes::Num(v) => v,
        _ => 0,
    }
}

/// One aggregation step, relating a node to its own extracted value and
/// its pre-aggregation children `base`.
///
/// A plain count (`Qty`) is local: when the children contribute, the
/// node's displayed value becomes own + children (saturating), and a self
/// entry keeps the own value visible when it is positive.  A cumulative
/// memory quantity (`MemQtyCumul`) already includes the children: when
/// they sum to strictly less, a self entry holds the difference, and never
/// a negative value.  The children, with the self entry appended last, are
/// then sorted stably.
pub open spec fn aggregated(
    path: Seq<Seq<char>>,
    st: StatRes,
    stype: StatType,
    sort: CGroupSortOrder,
    base: Seq<CGroup>,
    node: CGroup,
) -> bool {
    let own = own_of(st);
    let csum = stat_sum(base);
    match stype {
        StatType::Qty => {
            if csum > 0 {
                &&& node.stat as int == clamp_usize(own + csum)
                &&& if own > 0 {
                    exists|sn: CGroup|
                        #[trigger] is_self_node(sn, path, own) && node.children@ == sort_by_le(
                            cg_le_fn(sort),
                            base.push(sn),
                        )
                } else {
                    node.children@ == sort_by_le(cg_le_fn(sort), base)
                }
            } else {
                &&& node.stat as int == own
                &&& node.children@ == sort_by_le(cg_le_fn(sort), base)
            }
        }
        StatType::MemQtyCumul => {
            &&& node.stat as int == own
            &&& if base.len() > 0 && csum < own {
                exists|sn: CGroup|
                    #[trigger] is_self_node(sn, path, own - csum) && node.children@ == sort_by_le(
                        cg_le_fn(sort),
                        base.push(sn),
                    )
            } else {
                node.children@ == sort_by_le(cg_le_fn(sort), base)
            }
        }
    }
}

/// How a directory snapshot loads into a tree node: an unreadable
/// directory becomes a bare error node; otherwise each subdirectory loads
/// into a child, the node's own statistic and error come from the
/// extractor, and the children are aggregated and sorted.
pub open spec fn loads_to(
    dir: FsDir,
    path: Seq<Seq<char>>,
    sort: CGroupSortOrder,
    p: FileProcessor,
    stype: StatType,
    node: CGroup,
) -> bool
    decreases dir,
{
    &&& node.path.deep_view() == path
    &&& match dir.error {
        Some(msg) => opt_str_view(node.error) == Some(msg@) && node.stat == 0
            && node.children@.len() == 0,
        None => {
            &&& opt_str_view(node.error) == node_error(fp_stat(p, dir), dir)
            &&& exists|base: Seq<CGroup>|
                {
                    &&& base.len() == dir.subdirs@.len()
                    &&& (forall|i: int|
                        0 <= i < base.len() ==> loads_to(
                            dir.subdirs@[i],
                            path.push(dir.subdirs@[i].name@),
                            sort,
                            p,
                            stype,
                            #[trigger] base[i],
                        ))
                    &&& #[trigger] aggregated(path, fp_stat(p, dir), stype, sort, base, node)
                }
        },
    }
}

/// Checks the `memory` token of `cgroup.controllers`.
fn has_memory_controller(dir: &FsDir) -> (r: Option<bool>)
    ensures
        r == mem_controller(*dir),
{
    match dir.file("cgroup.controllers") {
        None => None,
        Some(f) => match &f.content {
            Err(_) => None,
            Ok(lines) => {
                proof {
                    assert(lines.deep_view().len() == lines@.len());
                }
                if lines.len() == 0 {
                    return Some(false);
                }
                proof {
                    assert(lines.deep_view()[0] == lines@[0]@);
                }
                let cols = crate::text::split_ws(lines[0].as_str());
                let ghost colsv = ws_split(lines@[0]@);
                let n = cols.len();
                let mut i: usize = 0;
                while i < n
                    invariant
                        0 <= i <= n,
                        n == cols@.len(),
                        cols.deep_view() == colsv,
                        colsv.len() == n,
                        lookup_lines(*dir, "cgroup.controllers"@) matches Ok(ls) && ls.len() > 0
                            && colsv == ws_split(ls[0]),
                        forall|j: int| 0 <= j < i ==> #[trigger] colsv[j] != "memory"@,
                    decreases n - i,
                {
                    if crate::text::str_cmp(cols[i].as_str(), "memory") == 0 {
                        proof {
                            crate::text::lemma_chars_cmp_props(cols@[i as int]@, "memory"@);
                            assert(colsv[i as int] == cols@[i as int]@);
                            assert(colsv.contains("memory"@));
                        }
                        return Some(true);
                    }
                    proof {
                        crate::text::lemma_chars_cmp_props(cols@[i as int]@, "memory"@);
                        assert(colsv[i as int] == cols@[i as int]@);
                    }
                    i = i + 1;
                }
                proof {
                    assert(!colsv.contains("memory"@));
                }
                Some(false)
            }
        },
    }
}

/// Sums the statistics of a level, saturating at the top of `usize`.
fn sum_stats(v: &Vec<CGroup>) -> (r: usize)
    ensures
        r as int == clamp_usize(stat_sum(v@)),
{
    let n = v.len();
    let mut acc: usize = 0;
    let mut i: usize = 0;
    proof {
        assert(v@.take(0) =~= Seq::<CGroup>::empty());
    }
    while i < n
        invariant
            0 <= i <= n,
            n == v@.len(),
            acc as int == clamp_usize(stat_sum(v@.take(i as int))),
        decreases n - i,
    {
        proof {
            assert(v@.take(i + 1).drop_last() =~= v@.take(i as int));
            assert(v@.take(i + 1).last() == v@[i as int]);
            lemma_stat_sum_nonneg(v@.take(i as int));
        }
        acc = acc.saturating_add(v[i].stat);
        i = i + 1;
    }
    proof {
        assert(v@.take(n as int) =~= v@);
    }
    acc
}

/// Loads one directory of the snapshot into a tree node.
fn load_cgroup_rec(
    dir: &FsDir,
    rel_path: Vec<String>,
    sort: CGroupSortOrder,
    proc: &FileProcessor,
    stype: StatType,
) -> (r: CGroup)
    requires
        fp_wf(*proc),
    ensures
        loads_to(*dir, rel_path.deep_view(), sort, *proc, stype, r),
    decreases *dir,
{
    let ghost path = rel_path.deep_view();
    if let Some(msg) = &dir.error {
        return CGroup::new_error(rel_path, String::from_str(msg.as_str()));
    }
    // children first: recurse into every subdirectory
    let mut children: Vec<CGroup> = Vec::new();
    let n = dir.subdirs.len();
    let mut i: usize = 0;
    while i < n
        invariant
            0 <= i <= n,
            n == dir.subdirs@.len(),
            children@.len() == i,
            fp_wf(*proc),
            path == rel_path.deep_view(),
            forall|j: int|
                0 <= j < i ==> loads_to(
                    dir.subdirs@[j],
                    path.push(dir.subdirs@[j].name@),
                    sort,
                    *proc,
                    stype,
                    #[trigger] children@[j],
                ),
        decreases n - i,
    {
        let mut sub_path = clone_strings(&rel_path);
        sub_path.push(String::from_str(dir.subdirs[i].name.as_str()));
        proof {
            assert(sub_path.deep_view() =~= path.push(dir.subdirs@[i as int].name@));
        }
        let child = load_cgroup_rec(&dir.subdirs[i], sub_path, sort, proc, stype);
        children.push(child);
        i = i + 1;
    }
    // this node's own statistic
    let st = proc.get_stat(dir);
    let ghost stres = fp_stat(*proc, *dir);
    let mut own: usize = 0;
    let mut error: Option<String> = None;
    match st {
        Ok(v) => {
            own = v;
        }
        Err(e) => {
            let msg = e.message();
            let lacks_controller = match has_memory_controller(dir) {
                Some(true) => false,
                Some(false) => true,
                None => false,
            };
            if lacks_controller {
                error = Some(String::from_str("No memory controller"));
            } else {
                error = Some(msg);
            }
        }
    }
    // aggregation
    let ghost base = children@;
    let csum = sum_stats(&children);
    let mut stat: usize = own;
    proof {
        lemma_stat_sum_nonneg(base);
    }
    match stype {
        StatType::Qty => {
            if csum > 0 {
                if own > 0 {
                    let mut self_path = clone_strings(&rel_path);
                    self_path.push(String::from_str("<self>"));
                    let mut sn = CGroup::new(self_path);
                    sn.stat = own;
                    proof {
                        assert(sn.path.deep_view() =~= path.push(self_seg()));
                        assert(is_self_node(sn, path, own as int));
                    }
                    children.push(sn);
                }
                stat = own.saturating_add(csum);
            }
        }
        StatType::MemQtyCumul => {
            if children.len() > 0 && csum < own {
                let mut self_path = clone_strings(&rel_path);
                self_path.push(String::from_str("<self>"));
                let mut sn = CGroup::new(self_path);
                sn.stat = own - csum;
                proof {
                    assert(sn.path.deep_view() =~= path.push(self_seg()));
                    assert(is_self_node(sn, path, own as int - stat_sum(base)));
                }
                children.push(sn);
            }
        }
    }
    let sorted = sort_cgroups(children, sort);
    let r = CGroup { path: rel_path, error, stat, children: sorted };
    proof {
        assert(own_of(stres) == own as int) by {
            assert(stat_matches(stres, st));
        }
        assert(opt_str_view(r.error) == node_error(stres, *dir));
        assert(aggregated(path, stres, stype, sort, base, r));
        assert(loads_to(*dir, path, sort, *proc, stype, r));
    }
    r
}

/// Finds the mount point of the cgroup v2 filesystem from the lines of
/// the mount table: the second column of the first line whose third
/// column is `cgroup2`.
pub fn get_cgroup2_mount_point(mounts: &Vec<String>) -> (r: Option<String>)
    ensures
        match crate::file_proc::keyed_scan(mounts.deep_view(), 3, "cgroup2"@, 2) {
            crate::file_proc::ExtractRes::Value(v) => r matches Some(s) && s@ == v,
            _ => r is None,
        },
{
    let table = crate::fsdata::FsFile {
        name: String::from_str("mounts"),
        content: Ok(clone_strings(mounts)),
    };
    let mut files: Vec<crate::fsdata::FsFile> = Vec::new();
    files.push(table);
    let d = FsDir { name: String::new(), files, subdirs: Vec::new(), error: None };
    let mut p = crate::file_proc::KeyedProcessor::new(3, "cgroup2", 2);
    p.set_file("mounts");
    proof {
        assert(crate::fsdata::find_file(d.files@, "mounts"@) == Some(d.files@[0]));
    }
    match p.get_value(&d) {
        Ok(s) => Some(s),
        Err(_) => None,
    }
}


/// No directory of the snapshot carries the synthetic `<self>` name, so a
/// self entry in a loaded tree can only be a synthesized one.
pub open spec fn no_self_dirs(d: FsDir) -> bool
    decreases d,
{
    forall|i: int|
        0 <= i < d.subdirs@.len() ==> ((#[trigger] d.subdirs@[i]).name@ != self_seg()
            && no_self_dirs(d.subdirs@[i]))
}

/// The plain-count aggregation invariant, over a whole tree: wherever the
/// children contribute, the node displays their sum (saturating).
pub open spec fn qty_invariant(node: CGroup) -> bool
    decreases node,
{
    &&& (stat_sum(node.children@) > 0 ==> node.stat as int == clamp_usize(
        stat_sum(node.children@),
    ))
    &&& forall|i: int| 0 <= i < node.children@.len() ==> qty_invariant(
        #[trigger] node.children@[i],
    )
}

/// The cumulative aggregation invariant, over a whole tree: a node with a
/// self entry among its children equals their sum exactly, and a node
/// with children but no self entry never exceeds it.
pub open spec fn cumul_invariant(node: CGroup) -> bool
    decreases node,
{
    &&& (has_self_entry(node.children@, node.path.deep_view()) ==> node.stat as int == stat_sum(
        node.children@,
    ))
    &&& (node.children@.len() > 0 && !has_self_entry(node.children@, node.path.deep_view())
        ==> node.stat as int <= stat_sum(node.children@))
    &&& forall|i: int| 0 <= i < node.children@.len() ==> cumul_invariant(
        #[trigger] node.children@[i],
    )
}

/// Every tree loaded with plain-count semantics satisfies the count
/// aggregation invariant at every node.
pub proof fn lemma_loads_to_qty_invariant(
    dir: FsDir,
    path: Seq<Seq<char>>,
    sort: CGroupSortOrder,
    p: FileProcessor,
    node: CGroup,
)
    requires
        loads_to(dir, path, sort, p, StatType::Qty, node),
    ensures
        qty_invariant(node),
    decreases dir,
{
    let le = cg_le_fn(sort);
    match dir.error {
        Some(_) => {
        }
        None => {
            let st = fp_stat(p, dir);
            let base = choose|base: Seq<CGroup>|
                {
                    &&& base.len() == dir.subdirs@.len()
                    &&& (forall|i: int|
                        0 <= i < base.len() ==> loads_to(
                            dir.subdirs@[i],
                            path.push(dir.subdirs@[i].name@),
                            sort,
                            p,
                            StatType::Qty,
                            #[trigger] base[i],
                        ))
                    &&& #[trigger] aggregated(path, st, StatType::Qty, sort, base, node)
                };
            let own = own_of(st);
            let csum = stat_sum(base);
            lemma_stat_sum_nonneg(base);
            assert(own >= 0) by {
                match crate::file_proc::fp_extract(p, dir) {
                    crate::file_proc::ExtractRes::Value(v) => {
                        if v.len() > 0 && crate::text::all_digits(v) && crate::text::str_val(v)
                            <= usize::MAX as int {
                            crate::text::lemma_str_val_nonneg(v);
                        }
                    }
                    _ => {
                    }
                }
            }
            let pre: Seq<CGroup> = if csum > 0 && own > 0 {
                let sn = choose|sn: CGroup|
                    #[trigger] is_self_node(sn, path, own) && node.children@ == sort_by_le(
                        le,
                        base.push(sn),
                    );
                base.push(sn)
            } else {
                base
            };
            assert(node.children@ == sort_by_le(le, pre));
            lemma_stat_sum_sort(le, pre);
            if csum > 0 && own > 0 {
                lemma_stat_sum_add(pre.drop_last(), seq![pre.last()]);
                assert(pre.drop_last() =~= base);
                assert(pre.drop_last() + seq![pre.last()] =~= pre);
                assert(stat_sum(seq![pre.last()]) == pre.last().stat) by {
                    assert(seq![pre.last()].drop_last() =~= Seq::<CGroup>::empty());
                    assert(stat_sum(Seq::<CGroup>::empty()) == 0);
                }
                assert(stat_sum(node.children@) == own + csum);
            }
            assert(stat_sum(node.children@) > 0 ==> node.stat as int == clamp_usize(
                stat_sum(node.children@),
            ));
            assert forall|i: int| 0 <= i < node.children@.len() implies qty_invariant(
                #[trigger] node.children@[i],
            ) by {
                let c = node.children@[i];
                assert(node.children@.contains(c));
                crate::sorting::lemma_sort_by_le_contains(le, pre, c);
                let j = choose|j: int| 0 <= j < pre.len() && pre[j] == c;
                if j < base.len() {
                    assert(base[j] == c);
                    lemma_loads_to_qty_invariant(
                        dir.subdirs@[j],
                        path.push(dir.subdirs@[j].name@),
                        sort,
                        p,
                        c,
                    );
                } else {
                    // the synthesized self entry: a leaf
                    assert(c.children@.len() == 0);
                    assert(stat_sum(c.children@) == 0);
                }
            }
        }
    }
}

/// Every tree loaded with cumulative semantics, from a snapshot in which
/// no directory is itself named `<self>`, satisfies the cumulative
/// aggregation invariant at every node.
pub proof fn lemma_loads_to_cumul_invariant(
    dir: FsDir,
    path: Seq<Seq<char>>,
    sort: CGroupSortOrder,
    p: FileProcessor,
    node: CGroup,
)
    requires
        loads_to(dir, path, sort, p, StatType::MemQtyCumul, node),
        no_self_dirs(dir),
    ensures
        cumul_invariant(node),
    decreases dir,
{
    let le = cg_le_fn(sort);
    match dir.error {
        Some(_) => {
        }
        None => {
            let st = fp_stat(p, dir);
            let base = choose|base: Seq<CGroup>|
                {
                    &&& base.len() == dir.subdirs@.len()
                    &&& (forall|i: int|
                        0 <= i < base.len() ==> loads_to(
                            dir.subdirs@[i],
                            path.push(dir.subdirs@[i].name@),
                            sort,
                            p,
                            StatType::MemQtyCumul,
                            #[trigger] base[i],
                        ))
                    &&& #[trigger] aggregated(path, st, StatType::MemQtyCumul, sort, base, node)
                };
            let own = own_of(st);
            let csum = stat_sum(base);
            // no natural child carries the self path
            assert forall|i: int| 0 <= i < base.len() implies (#[trigger] base[i]).path.deep_view()
                != path.push(self_seg()) by {
                assert(base[i].path.deep_view() == path.push(dir.subdirs@[i].name@));
                if base[i].path.deep_view() == path.push(self_seg()) {
                    assert(path.push(dir.subdirs@[i].name@).last() == dir.subdirs@[i].name@);
                    assert(path.push(self_seg()).last() == self_seg());
                }
            }
            if base.len() > 0 && csum < own {
                let sn = choose|sn: CGroup|
                    #[trigger] is_self_node(sn, path, own - csum) && node.children@ == sort_by_le(
                        le,
                        base.push(sn),
                    );
                let pre = base.push(sn);
                lemma_stat_sum_sort(le, pre);
                lemma_stat_sum_add(pre.drop_last(), seq![pre.last()]);
                assert(pre.drop_last() =~= base);
                assert(pre.drop_last() + seq![pre.last()] =~= pre);
                assert(stat_sum(seq![pre.last()]) == pre.last().stat) by {
                    assert(seq![pre.last()].drop_last() =~= Seq::<CGroup>::empty());
                    assert(stat_sum(Seq::<CGroup>::empty()) == 0);
                }
                assert(stat_sum(node.children@) == own);
                assert(node.stat as int == stat_sum(node.children@));
                assert forall|i: int| 0 <= i < node.children@.len() implies cumul_invariant(
                    #[trigger] node.children@[i],
                ) by {
                    let c = node.children@[i];
                    assert(node.children@.contains(c));
                    crate::sorting::lemma_sort_by_le_contains(le, pre, c);
                    let j = choose|j: int| 0 <= j < pre.len() && pre[j] == c;
                    if j < base.len() {
                        assert(base[j] == c);
                        lemma_loads_to_cumul_invariant(
                            dir.subdirs@[j],
                            path.push(dir.subdirs@[j].name@),
                            sort,
                            p,
                            c,
                        );
                    } else {
                        assert(c.children@.len() == 0);
                    }
                }
            } else {
                assert(node.children@ == sort_by_le(le, base));
                lemma_stat_sum_sort(le, base);
                // no self entry can be present: every row is a natural child
                assert(!has_self_entry(node.children@, node.path.deep_view())) by {
                    if has_self_entry(node.children@, node.path.deep_view()) {
                        let k = choose|k: int|
                            0 <= k < node.children@.len() && #[trigger] node.children@[
                                k
                            ].path.deep_view() == node.path.deep_view().push(self_seg());
                        let c = node.children@[k];
                        assert(node.children@.contains(c));
                        crate::sorting::lemma_sort_by_le_contains(le, base, c);
                        let j = choose|j: int| 0 <= j < base.len() && base[j] == c;
                    }
                }
                assert forall|i: int| 0 <= i < node.children@.len() implies cumul_invariant(
                    #[trigger] node.children@[i],
                ) by {
                    let c = node.children@[i];
                    assert(node.children@.contains(c));
                    crate::sorting::lemma_sort_by_le_contains(le, base, c);
                    let j = choose|j: int| 0 <= j < base.len() && base[j] == c;
                    lemma_loads_to_cumul_invariant(
                        dir.subdirs@[j],
                        path.push(dir.subdirs@[j].name@),
                        sort,
                        p,
                        c,
                    );
                }
            }
        }
    }
}


/// The display row of a node: its logical path and its statistic.
pub open spec fn row_view(c: CGroup) -> (Seq<Seq<char>>, int) {
    (c.path.deep_view(), c.stat as int)
}

/// A level of nodes, as its display rows.
pub open spec fn rows_of(s: Seq<CGroup>) -> Seq<(Seq<Seq<char>>, int)> {
    s.map_values(|c: CGroup| row_view(c))
}

/// The node order, read on rows alone.
pub open spec fn row_le(
    sort: CGroupSortOrder,
    a: (Seq<Seq<char>>, int),
    b: (Seq<Seq<char>>, int),
) -> bool {
    match sort {
        CGroupSortOrder::NameAsc => segs_cmp(a.0, b.0) <= 0,
        CGroupSortOrder::NameDsc => segs_cmp(b.0, a.0) <= 0,
        CGroupSortOrder::StatAsc => a.1 <= b.1,
        CGroupSortOrder::StatDsc => b.1 <= a.1,
    }
}

pub open spec fn row_le_fn(sort: CGroupSortOrder) -> spec_fn(
    (Seq<Seq<char>>, int),
    (Seq<Seq<char>>, int),
) -> bool {
    |a: (Seq<Seq<char>>, int), b: (Seq<Seq<char>>, int)| row_le(sort, a, b)
}

/// The rows of a level that carry the statistic `k`, in order.
pub open spec fn rows_with_stat(rows: Seq<(Seq<Seq<char>>, int)>, k: int) -> Seq<
    (Seq<Seq<char>>, int),
> {
    rows.filter(|row: (Seq<Seq<char>>, int)| row.1 == k)
}

proof fn lemma_stat_sum_pointwise(a: Seq<CGroup>, b: Seq<CGroup>)
    requires
        a.len() == b.len(),
        forall|i: int| 0 <= i < a.len() ==> (#[trigger] a[i]).stat == b[i].stat,
    ensures
        stat_sum(a) == stat_sum(b),
    decreases a.len(),
{
    if a.len() > 0 {
        assert forall|i: int| 0 <= i < a.drop_last().len() implies (#[trigger] a.drop_last()[
            i
        ]).stat == b.drop_last()[i].stat by {
            assert(a.drop_last()[i] == a[i] && b.drop_last()[i] == b[i]);
        }
        lemma_stat_sum_pointwise(a.drop_last(), b.drop_last());
    }
}

/// Loading the same snapshot twice, under any two orders, agrees on every
/// node's statistic and error, and each level's rows are the two orders'
/// sorts of one and the same pre-sort row sequence.
pub proof fn lemma_loads_to_rows(
    dir: FsDir,
    path: Seq<Seq<char>>,
    s1: CGroupSortOrder,
    s2: CGroupSortOrder,
    p: FileProcessor,
    stype: StatType,
    n1: CGroup,
    n2: CGroup,
)
    requires
        loads_to(dir, path, s1, p, stype, n1),
        loads_to(dir, path, s2, p, stype, n2),
    ensures
        n1.stat == n2.stat,
        opt_str_view(n1.error) == opt_str_view(n2.error),
        exists|r: Seq<(Seq<Seq<char>>, int)>|
            rows_of(n1.children@) == sort_by_le(#[trigger] row_le_fn(s1), r) && rows_of(
                n2.children@,
            ) == sort_by_le(row_le_fn(s2), r),
    decreases dir,
{
    match dir.error {
        Some(_) => {
            let r = Seq::<(Seq<Seq<char>>, int)>::empty();
            assert(rows_of(n1.children@) =~= sort_by_le(row_le_fn(s1), r));
            assert(rows_of(n2.children@) =~= sort_by_le(row_le_fn(s2), r));
        }
        None => {
            let st = fp_stat(p, dir);
            let base1 = choose|base: Seq<CGroup>|
                {
                    &&& base.len() == dir.subdirs@.len()
                    &&& (forall|i: int|
                        0 <= i < base.len() ==> loads_to(
                            dir.subdirs@[i],
                            path.push(dir.subdirs@[i].name@),
                            s1,
                            p,
                            stype,
                            #[trigger] base[i],
                        ))
                    &&& #[trigger] aggregated(path, st, stype, s1, base, n1)
                };
            let base2 = choose|base: Seq<CGroup>|
                {
                    &&& base.len() == dir.subdirs@.len()
                    &&& (forall|i: int|
                        0 <= i < base.len() ==> loads_to(
                            dir.subdirs@[i],
                            path.push(dir.subdirs@[i].name@),
                            s2,
                            p,
                            stype,
                            #[trigger] base[i],
                        ))
                    &&& #[trigger] aggregated(path, st, stype, s2, base, n2)
                };
            assert forall|i: int| 0 <= i < base1.len() implies (#[trigger] base1[i]).stat == base2[
                i
            ].stat && row_view(base1[i]) == row_view(base2[i]) by {
                lemma_loads_to_rows(
                    dir.subdirs@[i],
                    path.push(dir.subdirs@[i].name@),
                    s1,
                    s2,
                    p,
                    stype,
                    base1[i],
                    base2[i],
                );
            }
            lemma_stat_sum_pointwise(base1, base2);
            let own = own_of(st);
            let csum = stat_sum(base1);
            // the two loads make the same self-entry decision
            let withself = match stype {
                StatType::Qty => csum > 0 && own > 0,
                StatType::MemQtyCumul => base1.len() > 0 && csum < own,
            };
            let selfval: int = if stype is Qty {
                own
            } else {
                own - csum
            };
            let pre1: Seq<CGroup> = if withself {
                let sn = choose|sn: CGroup|
                    #[trigger] is_self_node(sn, path, selfval) && n1.children@ == sort_by_le(
                        cg_le_fn(s1),
                        base1.push(sn),
                    );
                base1.push(sn)
            } else {
                base1
            };
            let pre2: Seq<CGroup> = if withself {
                let sn = choose|sn: CGroup|
                    #[trigger] is_self_node(sn, path, selfval) && n2.children@ == sort_by_le(
                        cg_le_fn(s2),
                        base2.push(sn),
                    );
                base2.push(sn)
            } else {
                base2
            };
            assert(n1.children@ == sort_by_le(cg_le_fn(s1), pre1));
            assert(n2.children@ == sort_by_le(cg_le_fn(s2), pre2));
            let r = rows_of(pre1);
            assert(rows_of(pre2) =~= r);
            assert forall|a: CGroup, b: CGroup| #[trigger] cg_le(s1, a, b) == row_le(
                s1,
                row_view(a),
                row_view(b),
            ) by {}
            crate::sorting::lemma_sort_by_le_map(
                cg_le_fn(s1),
                row_le_fn(s1),
                |c: CGroup| row_view(c),
                pre1,
            );
            crate::sorting::lemma_sort_by_le_map(
                cg_le_fn(s2),
                row_le_fn(s2),
                |c: CGroup| row_view(c),
                pre2,
            );
            assert(rows_of(n1.children@) == sort_by_le(row_le_fn(s1), r));
            assert(rows_of(n2.children@) == sort_by_le(row_le_fn(s2), r)) by {
                assert(rows_of(pre2) == r);
            }
        }
    }
}

/// One level of a tree loaded ascending by statistic, against the same
/// snapshot loaded descending: children with pairwise distinct statistics
/// come out as exact reverses, and children tied on a statistic keep
/// their relative order under both directions.
pub proof fn lemma_loads_to_stat_orders(
    dir: FsDir,
    path: Seq<Seq<char>>,
    p: FileProcessor,
    stype: StatType,
    n1: CGroup,
    n2: CGroup,
)
    requires
        loads_to(dir, path, CGroupSortOrder::StatAsc, p, stype, n1),
        loads_to(dir, path, CGroupSortOrder::StatDsc, p, stype, n2),
    ensures
        (forall|i: int, j: int|
            0 <= i < n1.children@.len() && 0 <= j < n1.children@.len() && i != j ==> (
            #[trigger] n1.children@[i]).stat != (#[trigger] n1.children@[j]).stat) ==> rows_of(
            n2.children@,
        ) == rows_of(n1.children@).reverse(),
        forall|k: int|
            rows_with_stat(rows_of(n1.children@), k) == #[trigger] rows_with_stat(
                rows_of(n2.children@),
                k,
            ),
{
    let asc = row_le_fn(CGroupSortOrder::StatAsc);
    let dsc = row_le_fn(CGroupSortOrder::StatDsc);
    lemma_loads_to_rows(
        dir,
        path,
        CGroupSortOrder::StatAsc,
        CGroupSortOrder::StatDsc,
        p,
        stype,
        n1,
        n2,
    );
    let r = choose|r: Seq<(Seq<Seq<char>>, int)>|
        rows_of(n1.children@) == sort_by_le(#[trigger] row_le_fn(CGroupSortOrder::StatAsc), r)
            && rows_of(n2.children@) == sort_by_le(row_le_fn(CGroupSortOrder::StatDsc), r);
    assert(crate::sorting::total_preorder(asc)) by {
        assert forall|a: (Seq<Seq<char>>, int), b: (Seq<Seq<char>>, int)| #[trigger] asc(a, b)
            || #[trigger] asc(b, a) by {}
    }
    // ties keep their order: both directions are stable over the same rows
    assert forall|k: int|
        rows_with_stat(rows_of(n1.children@), k) == #[trigger] rows_with_stat(
        rows_of(n2.children@),
        k,
    ) by {
        let pk = |row: (Seq<Seq<char>>, int)| row.1 == k;
        assert(crate::sorting::total_preorder(dsc)) by {
            assert forall|a: (Seq<Seq<char>>, int), b: (Seq<Seq<char>>, int)| #[trigger] dsc(a, b)
                || #[trigger] dsc(b, a) by {}
        }
        crate::sorting::lemma_sort_by_le_stable(asc, r, pk);
        crate::sorting::lemma_sort_by_le_stable(dsc, r, pk);
        assert(rows_with_stat(rows_of(n1.children@), k) == rows_of(n1.children@).filter(pk));
        assert(rows_with_stat(rows_of(n2.children@), k) == rows_of(n2.children@).filter(pk));
    }
    // distinct statistics: the two sorts are exact reverses
    if forall|i: int, j: int|
        0 <= i < n1.children@.len() && 0 <= j < n1.children@.len() && i != j ==> (
        #[trigger] n1.children@[i]).stat != (#[trigger] n1.children@[j]).stat {
        // no two rows of the pre-sort level tie either
        assert forall|i: int, j: int|
            0 <= i < r.len() && 0 <= j < r.len() && i != j implies !(asc(#[trigger] r[i], #[trigger] r[j])
            && asc(r[j], r[i])) by {
            if asc(r[i], r[j]) && asc(r[j], r[i]) {
                let k = r[i].1;
                let pk = |row: (Seq<Seq<char>>, int)| row.1 == k;
                if i < j {
                    crate::sorting::lemma_filter_two_below(r, pk, i, j);
                } else {
                    crate::sorting::lemma_filter_two_below(r, pk, j, i);
                }
                crate::sorting::lemma_sort_by_le_stable(asc, r, pk);
                crate::sorting::lemma_filter_two_indices(sort_by_le(asc, r), pk);
                let (a, b) = choose|a: int, b: int|
                    0 <= a < b < sort_by_le(asc, r).len() && pk(#[trigger] sort_by_le(asc, r)[a])
                        && pk(#[trigger] sort_by_le(asc, r)[b]);
                assert(rows_of(n1.children@)[a].1 == k && rows_of(n1.children@)[b].1 == k);
                assert(n1.children@[a].stat as int == k && n1.children@[b].stat as int == k);
            }
        }
        crate::sorting::lemma_sort_flip_of_sort(asc, dsc, r);
    }
}

/// Whether a forest is what loading the snapshot root yields: the root
/// directory loads into one node; if that node failed but has usable
/// children, the children stand in for it.
pub open spec fn forest_of(
    root: FsDir,
    sort: CGroupSortOrder,
    p: FileProcessor,
    stype: StatType,
    r: Seq<CGroup>,
) -> bool {
    exists|cg: CGroup|
        #[trigger] loads_to(root, Seq::empty(), sort, p, stype, cg) && if cg.error is Some
            && cg.children@.len() > 0 {
            r == cg.children@
        } else {
            r == seq![cg]
        }
}

/// Loads the cgroup tree from a snapshot of the cgroup filesystem root.
///
/// The statistic's definition is compiled first; a definition that is not
/// recognized yields a single error node rather than a tree.
pub fn load_cgroups(root: &FsDir, stat: &Stat, sort: CGroupSortOrder) -> (r: Vec<CGroup>)
    ensures
        parse_ok(stat.def@) ==> exists|p: FileProcessor|
            #[trigger] fp_wf(p) && crate::file_proc::fp_matches_def(p, stat.def@) && forest_of(
                *root,
                sort,
                p,
                stat.stype,
                r@,
            ),
        !parse_ok(stat.def@) ==> r@.len() == 1 && opt_str_view(r@[0].error) == Some(
            "Unrecognized statistic"@,
        ) && r@[0].path@.len() == 0 && r@[0].stat == 0,
{
    match get_file_processor(stat.def()) {
        None => {
            let mut v: Vec<CGroup> = Vec::new();
            v.push(CGroup::new_error(Vec::new(), String::from_str("Unrecognized statistic")));
            v
        }
        Some(p) => {
            let empty_path: Vec<String> = Vec::new();
            proof {
                assert(empty_path.deep_view() =~= Seq::<Seq<char>>::empty());
            }
            let cg = load_cgroup_rec(root, empty_path, sort, &p, stat.stype);
            let ghost gcg = cg;
            if cg.error.is_some() && cg.children.len() > 0 {
                let CGroup { children, .. } = cg;
                proof {
                    assert(forest_of(*root, sort, p, stat.stype, children@));
                }
                children
            } else {
                let mut v: Vec<CGroup> = Vec::new();
                v.push(cg);
                proof {
                    assert(v@ =~= seq![gcg]);
                    assert(forest_of(*root, sort, p, stat.stype, v@));
                }
                v
            }
        }
    }
}

/// Re-sorting a level already strictly ascending by statistic with the
/// descending order yields the exact reverse sequence.
pub proof fn lemma_sort_stat_desc_reverse(s: Seq<CGroup>)
    requires
        forall|i: int, j: int| 0 <= i < j < s.len() ==> #[trigger] s[i].stat < #[trigger] s[j].stat,
    ensures
        sort_by_le(cg_le_fn(CGroupSortOrder::StatDsc), s) == s.reverse(),
{
    crate::sorting::lemma_sort_flip_reverse(
        cg_le_fn(CGroupSortOrder::StatAsc),
        cg_le_fn(CGroupSortOrder::StatDsc),
        s,
    );
}

/// Nodes tied on the statistic keep their relative order, under the
/// ascending and the descending order alike.
pub proof fn lemma_sort_stat_ties_stable(s: Seq<CGroup>, sort: CGroupSortOrder, k: int)
    requires
        sort == CGroupSortOrder::StatAsc || sort == CGroupSortOrder::StatDsc,
    ensures
        sort_by_le(cg_le_fn(sort), s).filter(|c: CGroup| c.stat == k) == s.filter(
            |c: CGroup| c.stat == k,
        ),
{
    lemma_cg_le_total(sort);
    crate::sorting::lemma_sort_by_le_stable(cg_le_fn(sort), s, |c: CGroup| c.stat == k);
}

/// Whether a level holds a synthetic self entry of the given parent path.
pub open spec fn has_self_entry(s: Seq<CGroup>, path: Seq<Seq<char>>) -> bool {
    exists|i: int| 0 <= i < s.len() && #[trigger] s[i].path.deep_view() == path.push(self_seg())
}

proof fn lemma_has_self_entry_sort(
    le: spec_fn(CGroup, CGroup) -> bool,
    s: Seq<CGroup>,
    path: Seq<Seq<char>>,
)
    ensures
        has_self_entry(sort_by_le(le, s), path) == has_self_entry(s, path),
{
    let r = sort_by_le(le, s);
    if has_self_entry(s, path) {
        let i = choose|i: int|
            0 <= i < s.len() && #[trigger] s[i].path.deep_view() == path.push(self_seg());
        assert(s.contains(s[i]));
        crate::sorting::lemma_sort_by_le_contains(le, s, s[i]);
        let j = choose|j: int| 0 <= j < r.len() && r[j] == s[i];
        assert(r[j].path.deep_view() == path.push(self_seg()));
    }
    if has_self_entry(r, path) {
        let i = choose|i: int|
            0 <= i < r.len() && #[trigger] r[i].path.deep_view() == path.push(self_seg());
        assert(r.contains(r[i]));
        crate::sorting::lemma_sort_by_le_contains(le, s, r[i]);
        let j = choose|j: int| 0 <= j < s.len() && s[j] == r[i];
        assert(s[j].path.deep_view() == path.push(self_seg()));
    }
}

/// Cumulative aggregation invariant.
///
/// For a node loaded with cumulative semantics from its own value `own`
/// and pre-synthesis children `base` (none of which is itself a self
/// entry): the node keeps its own value; its statistic covers the
/// children's sum exactly when the own value did; and a `<self>` entry —
/// holding precisely the shortfall, never a negative amount — is present
/// exactly when the children's sum was strictly below the own value, in
/// which case the children's sum after synthesis equals the node's value.
pub proof fn lemma_cumulative_aggregation(
    path: Seq<Seq<char>>,
    own: int,
    sort: CGroupSortOrder,
    base: Seq<CGroup>,
    node: CGroup,
)
    requires
        aggregated(path, StatRes::Num(own), StatType::MemQtyCumul, sort, base, node),
        base.len() > 0,
        !has_self_entry(base, path),
    ensures
        node.stat as int == own,
        stat_sum(node.children@) == if stat_sum(base) < own {
            own
        } else {
            stat_sum(base)
        },
        (node.stat as int >= stat_sum(node.children@)) == (own >= stat_sum(base)),
        has_self_entry(node.children@, path) == (stat_sum(base) < own),
        stat_sum(base) < own ==> exists|i: int|
            0 <= i < node.children@.len() && is_self_node(
                #[trigger] node.children@[i],
                path,
                own - stat_sum(base),
            ),
{
    let le = cg_le_fn(sort);
    let csum = stat_sum(base);
    if csum < own {
        let sn = choose|sn: CGroup|
            #[trigger] is_self_node(sn, path, own - csum) && node.children@ == sort_by_le(
                le,
                base.push(sn),
            );
        lemma_stat_sum_sort(le, base.push(sn));
        assert(base.push(sn) =~= base + seq![sn]);
        lemma_stat_sum_add(base, seq![sn]);
        assert(stat_sum(seq![sn]) == sn.stat) by {
            assert(seq![sn].drop_last() =~= Seq::<CGroup>::empty());
            assert(stat_sum(Seq::<CGroup>::empty()) == 0);
        }
        lemma_has_self_entry_sort(le, base.push(sn), path);
        assert(base.push(sn)[base.len() as int] == sn);
        assert(has_self_entry(base.push(sn), path));
        // locate the self entry in the sorted children
        assert(base.push(sn).contains(sn));
        crate::sorting::lemma_sort_by_le_contains(le, base.push(sn), sn);
        let j = choose|j: int|
            0 <= j < node.children@.len() && node.children@[j] == sn;
        assert(is_self_node(node.children@[j], path, own - csum));
    } else {
        lemma_stat_sum_sort(le, base);
        lemma_has_self_entry_sort(le, base, path);
    }
}

/// Plain-quantity aggregation invariant.
///
/// For a node loaded with non-cumulative semantics from its own value
/// `own` and pre-synthesis children `base` (none of which is itself a self
/// entry), when nothing saturates: the node's displayed statistic becomes
/// the own value plus the children's sum, and a `<self>` entry holding
/// exactly the own value is present precisely when the own value is
/// positive and at least one child contributed.
pub proof fn lemma_qty_aggregation(
    path: Seq<Seq<char>>,
    own: int,
    sort: CGroupSortOrder,
    base: Seq<CGroup>,
    node: CGroup,
)
    requires
        aggregated(path, StatRes::Num(own), StatType::Qty, sort, base, node),
        0 <= own,
        own + stat_sum(base) <= usize::MAX as int,
        !has_self_entry(base, path),
    ensures
        node.stat as int == own + stat_sum(base),
        has_self_entry(node.children@, path) == (own > 0 && stat_sum(base) > 0),
        own > 0 && stat_sum(base) > 0 ==> exists|i: int|
            0 <= i < node.children@.len() && is_self_node(#[trigger] node.children@[i], path, own),
{
    let le = cg_le_fn(sort);
    let csum = stat_sum(base);
    lemma_stat_sum_nonneg(base);
    if csum > 0 && own > 0 {
        let sn = choose|sn: CGroup|
            #[trigger] is_self_node(sn, path, own) && node.children@ == sort_by_le(
                le,
                base.push(sn),
            );
        lemma_has_self_entry_sort(le, base.push(sn), path);
        assert(base.push(sn)[base.len() as int] == sn);
        assert(has_self_entry(base.push(sn), path));
        assert(base.push(sn).contains(sn));
        crate::sorting::lemma_sort_by_le_contains(le, base.push(sn), sn);
        let j = choose|j: int|
            0 <= j < node.children@.len() && node.children@[j] == sn;
        assert(is_self_node(node.children@[j], path, own));
    } else {
        lemma_has_self_entry_sort(le, base, path);
    }
}

/// Sorting does not change the sum.
pub proof fn lemma_stat_sum_sort(le: spec_fn(CGroup, CGroup) -> bool, s: Seq<CGroup>)
    ensures
        stat_sum(sort_by_le(le, s)) == stat_sum(s),
    decreases s.len(),
{
    if s.len() > 0 {
        let t = sort_by_le(le, s.drop_last());
        lemma_stat_sum_sort(le, s.drop_last());
        lemma_ins_pos(le, s.last(), t);
        let p = crate::sorting::ins_pos(le, s.last(), t);
        lemma_stat_sum_add(t.take(p) + seq![s.last()], t.skip(p));
        lemma_stat_sum_add(t.take(p), seq![s.last()]);
        lemma_stat_sum_add(t.take(p), t.skip(p));
        assert(t.take(p) + t.skip(p) =~= t);
        assert(stat_sum(seq![s.last()]) == s.last().stat) by {
            assert(seq![s.last()].drop_last() =~= Seq::<CGroup>::empty());
            assert(stat_sum(Seq::<CGroup>::empty()) == 0);
        }
        assert(s.drop_last() + seq![s.last()] =~= s);
        lemma_stat_sum_add(s.drop_last(), seq![s.last()]);
    }
}

} // verus!
