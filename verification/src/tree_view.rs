//! View state of the cgroup tree: which node is selected and which nodes
//! are expanded, kept by logical path across wholesale rebuilds, and
//! navigation over the flattened visible rows.
//!
//! Nodes are addressed by index paths (the child indices from the root
//! level down); logical identity is the node's path of name segments.
//! Index paths mean nothing across a rebuild, so reconciliation maps the
//! old selection and expansion to paths first and back to index paths in
//! the new tree.

use vstd::prelude::*;

use crate::app::PollResult;
use crate::cgroup::CGroup;
use crate::sorting::lemma_contains_add;

verus! {

/// The node of a forest at an index path, if the path leads anywhere.
/// The empty path addresses no node.
pub open spec fn node_at(list: Seq<CGroup>, ip: Seq<usize>) -> Option<CGroup>
    decreases ip.len(),
{
    if ip.len() == 0 {
        None
    } else if ip[0] >= list.len() {
        None
    } else if ip.len() == 1 {
        Some(list[ip[0] as int])
    } else {
        node_at(list[ip[0] as int].children@, ip.drop_first())
    }
}

/// Walks the forest along the tail of `ip` from position `k`.
fn node_at_from<'a>(list: &'a Vec<CGroup>, ip: &Vec<usize>, k: usize) -> (r: Option<&'a CGroup>)
    requires
        k <= ip@.len(),
    ensures
        match r {
            Some(c) => node_at(list@, ip@.skip(k as int)) == Some(*c),
            None => node_at(list@, ip@.skip(k as int)) is None,
        },
    decreases ip@.len() - k,
{
    proof {
        if k < ip@.len() {
            assert(ip@.skip(k as int)[0] == ip@[k as int]);
            assert(ip@.skip(k as int).drop_first() =~= ip@.skip(k as int + 1));
        } else {
            assert(ip@.skip(k as int).len() == 0);
        }
    }
    if k >= ip.len() {
        return None;
    }
    let i = ip[k];
    if i >= list.len() {
        return None;
    }
    if k == ip.len() - 1 {
        proof {
            assert(ip@.skip(k as int).len() == 1);
        }
        Some(&list[i])
    } else {
        node_at_from(&list[i].children, ip, k + 1)
    }
}

/// The node of a forest at an index path.
pub fn node_at_exec<'a>(list: &'a Vec<CGroup>, ip: &Vec<usize>) -> (r: Option<&'a CGroup>)
    ensures
        match r {
            Some(c) => node_at(list@, ip@) == Some(*c),
            None => node_at(list@, ip@) is None,
        },
{
    proof {
        assert(ip@.skip(0) =~= ip@);
    }
    node_at_from(list, ip, 0)
}

/// One enumerated node: its index path and its logical path.
pub struct NodeEntry {
    pub ip: Seq<usize>,
    pub path: Seq<Seq<char>>,
}

/// Every node of the forest from child `from` on, in depth-first order,
/// parents before children.
pub open spec fn enum_forest(list: Seq<CGroup>, from: int, prefix: Seq<usize>) -> Seq<NodeEntry>
    decreases list, 0int, list.len() - from,
{
    if from < 0 || from >= list.len() || from > usize::MAX as int {
        Seq::empty()
    } else {
        enum_node(list[from], prefix.push(from as usize)) + enum_forest(list, from + 1, prefix)
    }
}

/// A node itself, then its descendants.
pub open spec fn enum_node(cg: CGroup, ip: Seq<usize>) -> Seq<NodeEntry>
    decreases cg, 1int, 0int,
{
    seq![NodeEntry { ip: ip, path: cg.path.deep_view() }] + enum_forest(cg.children@, 0, ip)
}

/// The enumeration of a forest holds exactly the nodes `node_at` reaches:
/// an entry `prefix + rest` with path `p` exists iff `rest` starts at or
/// after `from` and leads to a node whose path is `p`.
pub proof fn lemma_enum_forest_matches(
    list: Seq<CGroup>,
    from: int,
    prefix: Seq<usize>,
    rest: Seq<usize>,
    p: Seq<Seq<char>>,
)
    requires
        0 <= from,
    ensures
        enum_forest(list, from, prefix).contains(NodeEntry { ip: prefix + rest, path: p }) <==> {
            &&& rest.len() > 0
            &&& from <= rest[0]
            &&& match node_at(list, rest) {
                Some(n) => n.path.deep_view() == p,
                None => false,
            }
        },
    decreases list, 0int, list.len() - from,
{
    let e = NodeEntry { ip: prefix + rest, path: p };
    if from >= list.len() || from > usize::MAX as int {
        if enum_forest(list, from, prefix).contains(e) {
            let j = choose|j: int|
                0 <= j < enum_forest(list, from, prefix).len() && enum_forest(list, from, prefix)[j]
                    == e;
        }
        if rest.len() > 0 && from <= rest[0] && node_at(list, rest) is Some {
            assert(rest[0] < list.len());
            assert(false);
        }
    } else {
        let a = enum_node(list[from], prefix.push(from as usize));
        let b = enum_forest(list, from + 1, prefix);
        let ipf = prefix.push(from as usize);
        lemma_contains_add(a, b, e);
        lemma_enum_node_matches(list[from], ipf, prefix + rest, p);
        lemma_enum_forest_matches(list, from + 1, prefix, rest, p);
        // relate the two shapes of the index path
        if rest.len() > 0 && rest[0] == from {
            if rest.len() == 1 {
                assert(prefix + rest =~= ipf);
                assert(node_at(list, rest) == Some(list[from]));
                if a.contains(e) && !(e.ip == ipf && p == list[from as int].path.deep_view()) {
                    let rest2 = choose|rest2: Seq<usize>|
                        e.ip == ipf + rest2 && rest2.len() > 0 && (match node_at(
                            list[from as int].children@,
                            rest2,
                        ) {
                            Some(n) => n.path.deep_view() == p,
                            None => false,
                        });
                    assert((ipf + rest2).len() == ipf.len() + rest2.len());
                    assert(false);
                }
            } else {
                let rest1 = rest.drop_first();
                assert(prefix + rest =~= ipf + rest1);
                assert(node_at(list, rest) == node_at(list[from as int].children@, rest1));
                assert(e.ip != ipf) by {
                    assert((prefix + rest).len() == prefix.len() + rest.len());
                }
                if match node_at(list[from as int].children@, rest1) {
                    Some(n) => n.path.deep_view() == p,
                    None => false,
                } {
                    // witness for the entry sitting under child `from`
                    assert(e.ip == ipf + rest1 && rest1.len() > 0);
                    assert(a.contains(e));
                }
                if a.contains(e) {
                    let rest2 = choose|rest2: Seq<usize>|
                        e.ip == ipf + rest2 && rest2.len() > 0 && (match node_at(
                            list[from as int].children@,
                            rest2,
                        ) {
                            Some(n) => n.path.deep_view() == p,
                            None => false,
                        });
                    assert((ipf + rest2).skip(ipf.len() as int) =~= rest2);
                    assert((ipf + rest1).skip(ipf.len() as int) =~= rest1);
                    assert(rest2 == rest1);
                }
            }
        } else {
            // the entry cannot sit under child `from`
            if a.contains(e) {
                assert(e.ip == prefix + rest);
                assert((prefix + rest).skip(prefix.len() as int) =~= rest);
                if e.ip == prefix.push(from as usize) {
                    assert((prefix.push(from as usize)).skip(prefix.len() as int) =~= seq![
                        from as usize,
                    ]);
                    assert(rest == seq![from as usize]);
                    assert(rest[0] == from);
                } else {
                    let rest2 = choose|rest2: Seq<usize>|
                        e.ip == prefix.push(from as usize) + rest2 && rest2.len() > 0 && (match
                            node_at(list[from as int].children@, rest2) {
                            Some(n) => n.path.deep_view() == p,
                            None => false,
                        });
                    assert((prefix.push(from as usize) + rest2).skip(prefix.len() as int) =~= seq![
                        from as usize,
                    ] + rest2);
                    assert(rest == seq![from as usize] + rest2);
                    assert(rest[0] == from);
                }
                assert(false);
            }
        }
    }
}

/// The enumeration of one node holds the node itself and exactly the
/// nodes reached through its children.
pub proof fn lemma_enum_node_matches(cg: CGroup, ip: Seq<usize>, target: Seq<usize>, p: Seq<
    Seq<char>,
>)
    ensures
        enum_node(cg, ip).contains(NodeEntry { ip: target, path: p }) <==> {
            ||| (target == ip && p == cg.path.deep_view())
            ||| exists|rest: Seq<usize>|
                #![trigger node_at(cg.children@, rest)]
                target == ip + rest && rest.len() > 0 && (match node_at(cg.children@, rest) {
                    Some(n) => n.path.deep_view() == p,
                    None => false,
                })
        },
    decreases cg, 1int, 1int,
{
    let e = NodeEntry { ip: target, path: p };
    let head = seq![NodeEntry { ip: ip, path: cg.path.deep_view() }];
    lemma_contains_add(head, enum_forest(cg.children@, 0, ip), e);
    assert(head.contains(e) == (target == ip && p == cg.path.deep_view())) by {
        if head.contains(e) {
            let j = choose|j: int| 0 <= j < head.len() && head[j] == e;
            assert(head[0] == e);
        }
        if target == ip && p == cg.path.deep_view() {
            assert(head[0] == e);
        }
    }
    if enum_forest(cg.children@, 0, ip).contains(e) {
        // dig out the relative path of the entry under this node
        let rest = target.skip(ip.len() as int);
        assert(exists|rest0: Seq<usize>|
            target == ip + rest0 && rest0.len() > 0 && (match node_at(cg.children@, rest0) {
                Some(n) => n.path.deep_view() == p,
                None => false,
            })) by {
            lemma_enum_child_entry_shape(cg.children@, 0, ip, e);
            let rest1 = choose|rest1: Seq<usize>| e.ip == ip + rest1 && rest1.len() > 0;
            lemma_enum_forest_matches(cg.children@, 0, ip, rest1, p);
        }
    }
    if exists|rest0: Seq<usize>|
        target == ip + rest0 && rest0.len() > 0 && (match node_at(cg.children@, rest0) {
            Some(n) => n.path.deep_view() == p,
            None => false,
        }) {
        let rest0 = choose|rest0: Seq<usize>|
            target == ip + rest0 && rest0.len() > 0 && (match node_at(cg.children@, rest0) {
                Some(n) => n.path.deep_view() == p,
                None => false,
            });
        lemma_enum_forest_matches(cg.children@, 0, ip, rest0, p);
    }
}

/// One enumerated node, executably: its index path and logical path.
pub struct NodeRef {
    pub ip: Vec<usize>,
    pub path: Vec<String>,
}

pub open spec fn node_ref_view(r: NodeRef) -> NodeEntry {
    NodeEntry { ip: r.ip@, path: r.path.deep_view() }
}

pub open spec fn refs_view(s: Seq<NodeRef>) -> Seq<NodeEntry> {
    s.map_values(|r: NodeRef| node_ref_view(r))
}

/// Copies an index path.
fn clone_ip(v: &Vec<usize>) -> (r: Vec<usize>)
    ensures
        r@ == v@,
{
    let n = v.len();
    let mut out: Vec<usize> = Vec::new();
    let mut i: usize = 0;
    while i < n
        invariant
            0 <= i <= n,
            n == v@.len(),
            out@ =~= v@.take(i as int),
        decreases n - i,
    {
        out.push(v[i]);
        proof {
            assert(out@ =~= v@.take(i + 1));
        }
        i = i + 1;
    }
    proof {
        assert(v@.take(n as int) =~= v@);
    }
    out
}

/// Appends every node of the forest, depth first, parents before
/// children.
fn enumerate_forest(list: &Vec<CGroup>, prefix: &Vec<usize>, out: &mut Vec<NodeRef>)
    ensures
        refs_view(final(out)@) == refs_view(old(out)@) + enum_forest(list@, 0, prefix@),
    decreases *list,
{
    let n = list.len();
    let mut i: usize = 0;
    proof {
        assert(refs_view(out@) + enum_forest(list@, 0, prefix@) =~= refs_view(old(out)@)
            + enum_forest(list@, 0, prefix@));
    }
    while i < n
        invariant
            0 <= i <= n,
            n == list@.len(),
            refs_view(out@) + enum_forest(list@, i as int, prefix@) =~= refs_view(old(out)@)
                + enum_forest(list@, 0, prefix@),
        decreases n - i,
    {
        let mut ip = clone_ip(prefix);
        ip.push(i);
        let entry = NodeRef { ip: clone_ip(&ip), path: crate::text::clone_strings(&list[i].path) };
        let ghost out0 = out@;
        out.push(entry);
        proof {
            assert(refs_view(out@) =~= refs_view(out0).push(node_ref_view(entry)));
        }
        let ghost out1 = out@;
        enumerate_forest(&list[i].children, &ip, out);
        proof {
            assert(enum_forest(list@, i as int, prefix@) == enum_node(
                list@[i as int],
                prefix@.push(i),
            ) + enum_forest(list@, i + 1, prefix@));
            assert(node_ref_view(entry) == NodeEntry {
                ip: prefix@.push(i),
                path: list@[i as int].path.deep_view(),
            });
            assert(enum_node(list@[i as int], prefix@.push(i)) == seq![node_ref_view(entry)]
                + enum_forest(list@[i as int].children@, 0, prefix@.push(i)));
            assert(refs_view(out@) =~= refs_view(out1) + enum_forest(
                list@[i as int].children@,
                0,
                prefix@.push(i),
            ));
            assert(refs_view(out@) + enum_forest(list@, i + 1, prefix@) =~= refs_view(old(out)@)
                + enum_forest(list@, 0, prefix@));
        }
        i = i + 1;
    }
    proof {
        assert(enum_forest(list@, n as int, prefix@) =~= Seq::<NodeEntry>::empty());
        assert(refs_view(out@) =~= refs_view(old(out)@) + enum_forest(list@, 0, prefix@));
    }
}

/// Every entry of a forest enumeration extends the prefix by at least one
/// index.
proof fn lemma_enum_child_entry_shape(
    list: Seq<CGroup>,
    from: int,
    prefix: Seq<usize>,
    e: NodeEntry,
)
    requires
        enum_forest(list, from, prefix).contains(e),
    ensures
        exists|rest: Seq<usize>| e.ip == prefix + rest && rest.len() > 0,
    decreases list, 0int, list.len() - from,
{
    if from < 0 || from >= list.len() {
        let j = choose|j: int|
            0 <= j < enum_forest(list, from, prefix).len() && enum_forest(list, from, prefix)[j]
                == e;
    } else {
        let a = enum_node(list[from], prefix.push(from as usize));
        let b = enum_forest(list, from + 1, prefix);
        lemma_contains_add(a, b, e);
        if a.contains(e) {
            lemma_enum_node_entry_shape(list[from], prefix.push(from as usize), e);
            if e.ip == prefix.push(from as usize) {
                assert(e.ip == prefix + seq![from as usize]) by {
                    assert(prefix.push(from as usize) =~= prefix + seq![from as usize]);
                }
            } else {
                let rest = choose|rest: Seq<usize>|
                    e.ip == prefix.push(from as usize) + rest && rest.len() > 0;
                assert(e.ip == prefix + (seq![from as usize] + rest)) by {
                    assert(prefix.push(from as usize) + rest =~= prefix + (seq![from as usize]
                        + rest));
                }
            }
        } else {
            lemma_enum_child_entry_shape(list, from + 1, prefix, e);
        }
    }
}

/// Every entry of a node enumeration is the node itself or extends its
/// index path.
proof fn lemma_enum_node_entry_shape(cg: CGroup, ip: Seq<usize>, e: NodeEntry)
    requires
        enum_node(cg, ip).contains(e),
    ensures
        e.ip == ip || exists|rest: Seq<usize>| e.ip == ip + rest && rest.len() > 0,
    decreases cg, 1int, 1int,
{
    let head = seq![NodeEntry { ip: ip, path: cg.path.deep_view() }];
    lemma_contains_add(head, enum_forest(cg.children@, 0, ip), e);
    if head.contains(e) {
        let j = choose|j: int| 0 <= j < head.len() && head[j] == e;
        assert(head[0] == e);
    } else {
        lemma_enum_child_entry_shape(cg.children@, 0, ip, e);
    }
}


/// Whether any node of the forest carries the logical path `p`.
pub open spec fn tree_has_path(list: Seq<CGroup>, p: Seq<Seq<char>>) -> bool {
    exists|ip: Seq<usize>|
        match #[trigger] node_at(list, ip) {
            Some(n) => n.path.deep_view() == p,
            None => false,
        }
}

/// Whether a collected path list holds `q`.
pub open spec fn collected(paths: Seq<Vec<String>>, q: Seq<Seq<char>>) -> bool {
    exists|j: int| 0 <= j < paths.len() && #[trigger] paths[j].deep_view() == q
}

/// A list of index paths, as sequences.
pub open spec fn ips_view(s: Seq<Vec<usize>>) -> Seq<Seq<usize>> {
    s.map_values(|v: Vec<usize>| v@)
}

/// View state of the tree: the loaded forest, the selected node as an
/// index path (empty: nothing selected), the expanded nodes as index
/// paths, whether the display last showed a single root, and the rows of
/// one page.
pub struct CGroupTree {
    pub cgroups: Vec<CGroup>,
    pub selected: Vec<usize>,
    pub opened: Vec<Vec<usize>>,
    pub single_root: bool,
    pub page_size: u16,
}

/// The logical path of the currently selected node, if the selection
/// leads anywhere.
pub open spec fn sel_path(t: CGroupTree) -> Option<Seq<Seq<char>>> {
    match node_at(t.cgroups@, t.selected@) {
        Some(n) => Some(n.path.deep_view()),
        None => None,
    }
}

/// Whether a node of logical path `p` is marked expanded: some opened
/// index path leads to a node carrying `p`.
pub open spec fn was_opened(t: CGroupTree, p: Seq<Seq<char>>) -> bool {
    exists|k: int|
        0 <= k < t.opened@.len() && (match node_at(t.cgroups@, #[trigger] t.opened@[k]@) {
            Some(n) => n.path.deep_view() == p,
            None => false,
        })
}

/// Whether two logical paths are equal.
fn segs_eq(a: &Vec<String>, b: &Vec<String>) -> (r: bool)
    ensures
        r == (a.deep_view() == b.deep_view()),
{
    let c = crate::text::segs_cmp_exec(a, b);
    proof {
        crate::text::lemma_segs_cmp_props(a.deep_view(), b.deep_view());
        crate::text::lemma_segs_cmp_props(b.deep_view(), a.deep_view());
    }
    c == 0
}

/// Whether a collected path list holds the given path.
fn paths_contains(paths: &Vec<Vec<String>>, p: &Vec<String>) -> (r: bool)
    ensures
        r == collected(paths@, p.deep_view()),
{
    let n = paths.len();
    let mut i: usize = 0;
    while i < n
        invariant
            0 <= i <= n,
            n == paths@.len(),
            forall|j: int| 0 <= j < i ==> #[trigger] paths@[j].deep_view() != p.deep_view(),
        decreases n - i,
    {
        if segs_eq(&paths[i], p) {
            return true;
        }
        i = i + 1;
    }
    false
}


/// How a rebuild reconciles the view against the freshly loaded forest.
pub open spec fn tree_rebuilt(o: CGroupTree, n: CGroupTree, cgroups: Vec<CGroup>) -> bool {
    &&& n.cgroups == cgroups
    &&& n.page_size == o.page_size
    &&& n.single_root == (cgroups@.len() == 1)
    &&& match sel_path(o) {
        None => n.selected@.len() == 0,
        Some(p) => if tree_has_path(cgroups@, p) {
            match node_at(cgroups@, n.selected@) {
                Some(nd) => nd.path.deep_view() == p,
                None => false,
            }
        } else {
            n.selected@.len() == 0
        },
    }
    &&& forall|ip: Seq<usize>|
        #[trigger] ips_view(n.opened@).contains(ip) <==> ((match node_at(cgroups@, ip) {
            Some(nd) => was_opened(o, nd.path.deep_view()),
            None => false,
        }) || (cgroups@.len() == 1 && !o.single_root && ip == seq![0usize]))
}

impl CGroupTree {
    /// A fresh, empty view state.
    pub fn new() -> (r: CGroupTree)
        ensures
            r.cgroups@.len() == 0,
            r.selected@.len() == 0,
            r.opened@.len() == 0,
            !r.single_root,
            r.page_size == 0,
    {
        CGroupTree {
            cgroups: Vec::new(),
            selected: Vec::new(),
            opened: Vec::new(),
            single_root: false,
            page_size: 0,
        }
    }

    /// The currently selected index path.
    pub fn selected(&self) -> (r: Vec<usize>)
        ensures
            r@ == self.selected@,
    {
        clone_ip(&self.selected)
    }

    /// The currently selected node, if the selection leads anywhere.
    pub fn cgroup(&self) -> (r: Option<&CGroup>)
        ensures
            match r {
                Some(c) => node_at(self.cgroups@, self.selected@) == Some(*c),
                None => node_at(self.cgroups@, self.selected@) is None,
            },
    {
        node_at_exec(&self.cgroups, &self.selected)
    }

    /// Replaces the forest with a freshly loaded one, carrying selection
    /// and expansion over by logical path.
    ///
    /// The selected node stays selected if its path still exists anywhere
    /// in the new forest, and the selection empties if it does not; a node
    /// is expanded afterwards exactly if its path was expanded before —
    /// with one addition: on the transition into a single-root display the
    /// one root is expanded once.
    pub fn build_tree(&mut self, cgroups: Vec<CGroup>)
        ensures
            tree_rebuilt(*old(self), *final(self), cgroups),
    {
        let ghost oldt = *self;
        // resolve the old selection and expansion to logical paths
        let old_sel: Option<Vec<String>> = match node_at_exec(&self.cgroups, &self.selected) {
            Some(c) => Some(crate::text::clone_strings(&c.path)),
            None => None,
        };
        let ghost selp: Option<Seq<Seq<char>>> = sel_path(oldt);
        proof {
            match &old_sel {
                Some(s) => {
                    assert(selp matches Some(p) && p == s.deep_view());
                }
                None => {
                    assert(selp is None);
                }
            }
        }
        let mut old_paths: Vec<Vec<String>> = Vec::new();
        let n0 = self.opened.len();
        let mut k: usize = 0;
        while k < n0
            invariant
                0 <= k <= n0,
                n0 == oldt.opened@.len(),
                *self == oldt,
                forall|j: int|
                    0 <= j < old_paths@.len() ==> was_opened(oldt, #[trigger] old_paths@[
                        j
                    ].deep_view()),
                forall|kk: int|
                    0 <= kk < k ==> (match node_at(oldt.cgroups@, #[trigger] oldt.opened@[kk]@) {
                        Some(n) => collected(old_paths@, n.path.deep_view()),
                        None => true,
                    }),
            decreases n0 - k,
        {
            let ghost before = old_paths@;
            match node_at_exec(&self.cgroups, &self.opened[k]) {
                Some(c) => {
                    let q = crate::text::clone_strings(&c.path);
                    old_paths.push(q);
                    proof {
                        assert(old_paths@[before.len() as int].deep_view() == c.path.deep_view());
                        assert(was_opened(oldt, c.path.deep_view()));
                        assert forall|j: int| 0 <= j < old_paths@.len() implies was_opened(
                            oldt,
                            #[trigger] old_paths@[j].deep_view(),
                        ) by {
                            if j < before.len() {
                                assert(old_paths@[j] == before[j]);
                            }
                        }
                        assert forall|kk: int|
                            0 <= kk < k + 1 implies (match node_at(
                            oldt.cgroups@,
                            #[trigger] oldt.opened@[kk]@,
                        ) {
                            Some(n) => collected(old_paths@, n.path.deep_view()),
                            None => true,
                        }) by {
                            if kk < k as int {
                                match node_at(oldt.cgroups@, oldt.opened@[kk]@) {
                                    Some(n) => {
                                        let j = choose|j: int|
                                            0 <= j < before.len() && #[trigger] before[
                                                j
                                            ].deep_view() == n.path.deep_view();
                                        assert(old_paths@[j] == before[j]);
                                    }
                                    None => {
                                    }
                                }
                            }
                        }
                    }
                }
                None => {
                }
            }
            k = k + 1;
        }
        // the collected paths are exactly the paths that were expanded
        proof {
            assert forall|q: Seq<Seq<char>>| #[trigger] collected(old_paths@, q) == was_opened(
                oldt,
                q,
            ) by {
                if collected(old_paths@, q) {
                    let j = choose|j: int|
                        0 <= j < old_paths@.len() && #[trigger] old_paths@[j].deep_view() == q;
                }
                if was_opened(oldt, q) {
                    let kk = choose|kk: int|
                        0 <= kk < oldt.opened@.len() && (match node_at(
                            oldt.cgroups@,
                            #[trigger] oldt.opened@[kk]@,
                        ) {
                            Some(n) => n.path.deep_view() == q,
                            None => false,
                        });
                }
            }
        }
        // rebuild
        let forced = cgroups.len() == 1 && !self.single_root;
        self.single_root = cgroups.len() == 1;
        self.cgroups = cgroups;
        self.opened = Vec::new();
        self.selected = Vec::new();
        let mut entries: Vec<NodeRef> = Vec::new();
        let pref: Vec<usize> = Vec::new();
        enumerate_forest(&self.cgroups, &pref, &mut entries);
        let ghost newv = self.cgroups@;
        let ghost entv = refs_view(entries@);
        let ghost opc = old_paths@;
        proof {
            assert(pref@ =~= Seq::<usize>::empty());
            assert(refs_view(Seq::<NodeRef>::empty()) =~= Seq::<NodeEntry>::empty());
            assert(entv =~= enum_forest(newv, 0, Seq::<usize>::empty()));
        }
        let m = entries.len();
        let mut select: Option<Vec<usize>> = None;
        let mut i: usize = 0;
        proof {
            assert(ips_view(self.opened@) =~= Seq::<Seq<usize>>::empty());
        }
        while i < m
            invariant
                0 <= i <= m,
                m == entries@.len(),
                entv == refs_view(entries@),
                entv == enum_forest(newv, 0, Seq::<usize>::empty()),
                entv.len() == m,
                newv == self.cgroups@,
                self.cgroups == cgroups,
                self.page_size == oldt.page_size,
                self.single_root == (cgroups@.len() == 1),
                self.selected@.len() == 0,
                forced == (cgroups@.len() == 1 && !oldt.single_root),
                opc == old_paths@,
                match select {
                    Some(ip) => selp matches Some(p) && (match node_at(newv, ip@) {
                        Some(n) => n.path.deep_view() == p,
                        None => false,
                    }),
                    None => selp is None || forall|j: int|
                        0 <= j < i ==> (#[trigger] entv[j]).path != selp.unwrap(),
                },
                match old_sel {
                    Some(s) => selp == Some(s.deep_view()),
                    None => selp is None,
                },
                forall|ip: Seq<usize>|
                    #[trigger] ips_view(self.opened@).contains(ip) <==> exists|j: int|
                        0 <= j < i && (#[trigger] entv[j]).ip == ip && collected(opc, entv[j].path),
            decreases m - i,
        {
            proof {
                assert(entv[i as int] == node_ref_view(entries@[i as int]));
            }
            let matches_sel = match &old_sel {
                Some(s) => segs_eq(&entries[i].path, s),
                None => false,
            };
            if matches_sel {
                proof {
                    lemma_enum_forest_matches(
                        newv,
                        0,
                        Seq::<usize>::empty(),
                        entv[i as int].ip,
                        entv[i as int].path,
                    );
                    assert(Seq::<usize>::empty() + entv[i as int].ip =~= entv[i as int].ip);
                    assert(entv.contains(entv[i as int]));
                    assert(NodeEntry {
                        ip: Seq::<usize>::empty() + entv[i as int].ip,
                        path: entv[i as int].path,
                    } == entv[i as int]);
                }
                select = Some(clone_ip(&entries[i].ip));
            }
            let ghost obd = ips_view(self.opened@);
            if paths_contains(&old_paths, &entries[i].path) {
                self.opened.push(clone_ip(&entries[i].ip));
                proof {
                    assert(ips_view(self.opened@) =~= obd.push(entv[i as int].ip));
                    assert forall|ip: Seq<usize>|
                        #[trigger] ips_view(self.opened@).contains(ip) implies exists|j: int|
                        0 <= j < i + 1 && (#[trigger] entv[j]).ip == ip && collected(
                            opc,
                            entv[j].path,
                        ) by {
                        let jj = choose|jj: int|
                            0 <= jj < ips_view(self.opened@).len() && ips_view(self.opened@)[jj]
                                == ip;
                        if jj < obd.len() {
                            assert(obd.contains(ip));
                        } else {
                            assert(entv[i as int].ip == ip);
                        }
                    }
                    assert forall|ip: Seq<usize>|
                        exists|j: int|
                            0 <= j < i + 1 && (#[trigger] entv[j]).ip == ip && collected(
                                opc,
                                entv[j].path,
                            ) implies #[trigger] ips_view(self.opened@).contains(ip) by {
                        let j = choose|j: int|
                            0 <= j < i + 1 && (#[trigger] entv[j]).ip == ip && collected(
                                opc,
                                entv[j].path,
                            );
                        if j < i as int {
                            assert(obd.contains(ip));
                            let jj = choose|jj: int| 0 <= jj < obd.len() && obd[jj] == ip;
                            assert(ips_view(self.opened@)[jj] == ip);
                        } else {
                            assert(ips_view(self.opened@)[obd.len() as int] == ip);
                        }
                    }
                }
            } else {
                proof {
                    assert forall|ip: Seq<usize>|
                        exists|j: int|
                            0 <= j < i + 1 && (#[trigger] entv[j]).ip == ip && collected(
                                opc,
                                entv[j].path,
                            ) implies #[trigger] ips_view(self.opened@).contains(ip) by {
                        let j = choose|j: int|
                            0 <= j < i + 1 && (#[trigger] entv[j]).ip == ip && collected(
                                opc,
                                entv[j].path,
                            );
                        assert(j < i as int);
                    }
                }
            }
            i = i + 1;
        }
        let ghost pre_forced = ips_view(self.opened@);
        if forced {
            let mut root_ip: Vec<usize> = Vec::new();
            root_ip.push(0);
            proof {
                assert(root_ip@ =~= seq![0usize]);
            }
            self.opened.push(root_ip);
            proof {
                assert(ips_view(self.opened@) =~= pre_forced.push(seq![0usize]));
            }
        }
        let ghost gsel = select;
        match select {
            Some(s) => {
                self.selected = s;
            }
            None => {
            }
        }
        proof {
            // expansion: translate entry membership into node lookups
            assert forall|ip: Seq<usize>|
                #[trigger] ips_view(self.opened@).contains(ip) implies ((match node_at(
                newv,
                ip,
            ) {
                Some(n) => was_opened(oldt, n.path.deep_view()),
                None => false,
            }) || (newv.len() == 1 && !oldt.single_root && ip == seq![0usize])) by {
                if forced && ip == seq![0usize] {
                } else {
                    assert(pre_forced.contains(ip)) by {
                        let jj = choose|jj: int|
                            0 <= jj < ips_view(self.opened@).len() && ips_view(self.opened@)[jj]
                                == ip;
                        if forced {
                            assert(jj < pre_forced.len());
                        }
                    }
                    let j = choose|j: int|
                        0 <= j < entv.len() && (#[trigger] entv[j]).ip == ip && collected(
                            opc,
                            entv[j].path,
                        );
                    assert(entv.contains(entv[j]));
                    lemma_enum_forest_matches(newv, 0, Seq::<usize>::empty(), ip, entv[j].path);
                    assert(Seq::<usize>::empty() + ip =~= ip);
                    assert(NodeEntry { ip: Seq::<usize>::empty() + ip, path: entv[j].path } == entv[
                        j
                    ]);
                }
            }
            assert forall|ip: Seq<usize>|
                ((match node_at(newv, ip) {
                    Some(n) => was_opened(oldt, n.path.deep_view()),
                    None => false,
                }) || (newv.len() == 1 && !oldt.single_root && ip == seq![0usize])) implies
                #[trigger] ips_view(self.opened@).contains(ip) by {
                if match node_at(newv, ip) {
                    Some(n) => was_opened(oldt, n.path.deep_view()),
                    None => false,
                } {
                    let n = node_at(newv, ip).unwrap();
                    lemma_enum_forest_matches(
                        newv,
                        0,
                        Seq::<usize>::empty(),
                        ip,
                        n.path.deep_view(),
                    );
                    assert(Seq::<usize>::empty() + ip =~= ip);
                    assert(entv.contains(NodeEntry { ip: ip, path: n.path.deep_view() }));
                    let j = choose|j: int|
                        0 <= j < entv.len() && entv[j] == NodeEntry {
                            ip: ip,
                            path: n.path.deep_view(),
                        };
                    assert(collected(opc, entv[j].path));
                    assert(pre_forced.contains(ip));
                    let jj = choose|jj: int| 0 <= jj < pre_forced.len() && pre_forced[jj] == ip;
                    assert(ips_view(self.opened@)[jj] == ip);
                } else {
                    assert(forced && ip == seq![0usize]);
                    assert(ips_view(self.opened@)[pre_forced.len() as int] == ip);
                }
            }
            // selection
            match selp {
                None => {
                    assert(self.selected@.len() == 0);
                }
                Some(p) => {
                    if tree_has_path(newv, p) {
                        let wip = choose|wip: Seq<usize>|
                            match #[trigger] node_at(newv, wip) {
                                Some(n) => n.path.deep_view() == p,
                                None => false,
                            };
                        let wn = node_at(newv, wip).unwrap();
                        lemma_enum_forest_matches(newv, 0, Seq::<usize>::empty(), wip, p);
                        assert(Seq::<usize>::empty() + wip =~= wip);
                        assert(entv.contains(NodeEntry { ip: wip, path: p }));
                        let j = choose|j: int|
                            0 <= j < entv.len() && entv[j] == NodeEntry { ip: wip, path: p };
                        assert(gsel is Some);
                    } else {
                        match gsel {
                            Some(ip) => {
                                assert(tree_has_path(newv, p));
                            }
                            None => {
                            }
                        }
                        assert(self.selected@.len() == 0);
                    }
                }
            }
        }
    }
}


/// The visible rows of the forest from child `from` on: every node at the
/// top level, and below an expanded node its children in turn, in
/// depth-first order.
pub open spec fn visible_forest(
    list: Seq<CGroup>,
    from: int,
    opened: Seq<Seq<usize>>,
    prefix: Seq<usize>,
) -> Seq<Seq<usize>>
    decreases list, 0int, list.len() - from,
{
    if from < 0 || from >= list.len() || from > usize::MAX as int {
        Seq::empty()
    } else {
        visible_node(list[from], opened, prefix.push(from as usize)) + visible_forest(
            list,
            from + 1,
            opened,
            prefix,
        )
    }
}

/// A node's own row, and its children's rows when it is expanded.
pub open spec fn visible_node(cg: CGroup, opened: Seq<Seq<usize>>, ip: Seq<usize>) -> Seq<
    Seq<usize>,
>
    decreases cg, 1int, 0int,
{
    seq![ip] + if opened.contains(ip) {
        visible_forest(cg.children@, 0, opened, ip)
    } else {
        Seq::empty()
    }
}

/// Whether two index paths are equal.
fn ip_eq(a: &Vec<usize>, b: &Vec<usize>) -> (r: bool)
    ensures
        r == (a@ == b@),
{
    let n = a.len();
    if n != b.len() {
        proof {
            assert(a@ != b@) by {
                assert(a@.len() != b@.len());
            }
        }
        return false;
    }
    let mut i: usize = 0;
    while i < n
        invariant
            0 <= i <= n,
            n == a@.len(),
            n == b@.len(),
            forall|j: int| 0 <= j < i ==> a@[j] == b@[j],
        decreases n - i,
    {
        if a[i] != b[i] {
            return false;
        }
        i = i + 1;
    }
    proof {
        assert(a@ =~= b@);
    }
    true
}

/// Whether an index path is in a list of index paths.
fn ip_in(list: &Vec<Vec<usize>>, ip: &Vec<usize>) -> (r: bool)
    ensures
        r == ips_view(list@).contains(ip@),
{
    let n = list.len();
    let mut i: usize = 0;
    while i < n
        invariant
            0 <= i <= n,
            n == list@.len(),
            forall|j: int| 0 <= j < i ==> #[trigger] list@[j]@ != ip@,
        decreases n - i,
    {
        if ip_eq(&list[i], ip) {
            proof {
                assert(ips_view(list@)[i as int] == ip@);
            }
            return true;
        }
        i = i + 1;
    }
    proof {
        if ips_view(list@).contains(ip@) {
            let j = choose|j: int| 0 <= j < ips_view(list@).len() && ips_view(list@)[j] == ip@;
            assert(list@[j]@ == ip@);
        }
    }
    false
}

/// Appends the visible rows of the forest.
fn flatten_visible(
    list: &Vec<CGroup>,
    opened: &Vec<Vec<usize>>,
    prefix: &Vec<usize>,
    out: &mut Vec<Vec<usize>>,
)
    ensures
        ips_view(final(out)@) == ips_view(old(out)@) + visible_forest(
            list@,
            0,
            ips_view(opened@),
            prefix@,
        ),
    decreases *list,
{
    let n = list.len();
    let mut i: usize = 0;
    proof {
        assert(ips_view(out@) + visible_forest(list@, 0, ips_view(opened@), prefix@) =~= ips_view(
            old(out)@,
        ) + visible_forest(list@, 0, ips_view(opened@), prefix@));
    }
    while i < n
        invariant
            0 <= i <= n,
            n == list@.len(),
            ips_view(out@) + visible_forest(list@, i as int, ips_view(opened@), prefix@)
                =~= ips_view(old(out)@) + visible_forest(list@, 0, ips_view(opened@), prefix@),
        decreases n - i,
    {
        let mut ip = clone_ip(prefix);
        ip.push(i);
        let ghost out0 = out@;
        out.push(clone_ip(&ip));
        proof {
            assert(ips_view(out@) =~= ips_view(out0).push(prefix@.push(i)));
        }
        let ghost out1 = out@;
        let ghost ov = ips_view(opened@);
        if ip_in(opened, &ip) {
            flatten_visible(&list[i].children, opened, &ip, out);
            proof {
                assert(visible_node(list@[i as int], ov, prefix@.push(i)) == seq![
                    prefix@.push(i),
                ] + visible_forest(list@[i as int].children@, 0, ov, prefix@.push(i)));
                assert(ips_view(out@) + visible_forest(list@, i + 1, ov, prefix@) =~= ips_view(
                    old(out)@,
                ) + visible_forest(list@, 0, ov, prefix@));
            }
        } else {
            proof {
                assert(visible_node(list@[i as int], ov, prefix@.push(i)) =~= seq![
                    prefix@.push(i),
                ]);
                assert(ips_view(out@) + visible_forest(list@, i + 1, ov, prefix@) =~= ips_view(
                    old(out)@,
                ) + visible_forest(list@, 0, ov, prefix@));
            }
        }
        i = i + 1;
    }
    proof {
        assert(visible_forest(list@, n as int, ips_view(opened@), prefix@) =~= Seq::<
            Seq<usize>,
        >::empty());
        assert(ips_view(out@) =~= ips_view(old(out)@) + visible_forest(
            list@,
            0,
            ips_view(opened@),
            prefix@,
        ));
    }
}

/// The first position of an index path in a row list, or -1.
pub open spec fn row_index(vis: Seq<Seq<usize>>, ip: Seq<usize>) -> int
    decreases vis.len(),
{
    if vis.len() == 0 {
        -1
    } else if vis[0] == ip {
        0
    } else {
        let r = row_index(vis.drop_first(), ip);
        if r < 0 {
            -1
        } else {
            r + 1
        }
    }
}

pub proof fn lemma_row_index(vis: Seq<Seq<usize>>, ip: Seq<usize>)
    ensures
        row_index(vis, ip) == -1 ==> forall|j: int| 0 <= j < vis.len() ==> #[trigger] vis[j] != ip,
        row_index(vis, ip) >= 0 ==> {
            &&& row_index(vis, ip) < vis.len()
            &&& vis[row_index(vis, ip)] == ip
            &&& forall|j: int| 0 <= j < row_index(vis, ip) ==> #[trigger] vis[j] != ip
        },
    decreases vis.len(),
{
    if vis.len() > 0 && vis[0] != ip {
        lemma_row_index(vis.drop_first(), ip);
        let r = row_index(vis.drop_first(), ip);
        if r < 0 {
            assert forall|j: int| 0 <= j < vis.len() implies #[trigger] vis[j] != ip by {
                if j > 0 {
                    assert(vis.drop_first()[j - 1] == vis[j]);
                }
            }
        } else {
            assert(vis.drop_first()[r] == vis[r + 1]);
            assert forall|j: int| 0 <= j < r + 1 implies #[trigger] vis[j] != ip by {
                if j > 0 {
                    assert(vis.drop_first()[j - 1] == vis[j]);
                }
            }
        }
    }
}

/// Where a movement by `amount` from base position `base` lands in a list
/// of `len` rows: clamped to the rows.
pub open spec fn clamp_row(base: int, amount: int, len: int) -> int {
    let t = base + amount;
    if t < 0 {
        0
    } else if t > len - 1 {
        len - 1
    } else {
        t
    }
}


/// How one selection movement transforms the view: over the visible rows,
/// the selection moves by `amount` from its current position (or from the
/// fallback `no_pos` when nothing was selected), clamped to the rows; a
/// redraw is requested exactly when the selection changed.
pub open spec fn tree_moved_by(
    o: CGroupTree,
    n: CGroupTree,
    r: PollResult,
    amount: int,
    no_pos: int,
) -> bool {
    let vis = visible_forest(o.cgroups@, 0, ips_view(o.opened@), Seq::<usize>::empty());
    let cur = row_index(vis, o.selected@);
    let base = if cur >= 0 {
        cur
    } else {
        no_pos
    };
    let newi = clamp_row(base, amount, vis.len() as int);
    if vis.len() == 0 {
        r is None && n == o
    } else if cur == -1 || newi != cur {
        &&& n.selected@ == vis[newi]
        &&& r matches Some(v) && v@.len() == 0
        &&& n.cgroups == o.cgroups
        &&& n.opened == o.opened
        &&& n.single_root == o.single_root
        &&& n.page_size == o.page_size
    } else {
        r is None && n == o
    }
}

/// Collapsing the selected node when it is expanded, else stepping to the
/// parent.
pub open spec fn tree_left(o: CGroupTree, n: CGroupTree, r: PollResult) -> bool {
    &&& ips_view(o.opened@).contains(o.selected@) ==> {
        &&& n.selected == o.selected
        &&& forall|q: Seq<usize>| #[trigger] ips_view(n.opened@).contains(q) <==> (ips_view(
            o.opened@,
        ).contains(q) && q != o.selected@)
    }
    &&& !ips_view(o.opened@).contains(o.selected@) ==> {
        &&& n.opened == o.opened
        &&& n.selected@ == o.selected@.take(
            if o.selected@.len() > 0 {
                o.selected@.len() - 1
            } else {
                0
            },
        )
    }
    &&& n.cgroups == o.cgroups
    &&& n.single_root == o.single_root
    &&& n.page_size == o.page_size
    &&& r matches Some(v) && v@.len() == 0
}

/// Expanding the selected node.
pub open spec fn tree_right(o: CGroupTree, n: CGroupTree, r: PollResult) -> bool {
    &&& forall|q: Seq<usize>| #[trigger] ips_view(n.opened@).contains(q) <==> (ips_view(
        o.opened@,
    ).contains(q) || (o.selected@.len() > 0 && q == o.selected@))
    &&& n.selected == o.selected
    &&& n.cgroups == o.cgroups
    &&& n.single_root == o.single_root
    &&& n.page_size == o.page_size
    &&& r matches Some(v) && v@.len() == 0
}

/// Selecting the first row.
pub open spec fn tree_first(o: CGroupTree, n: CGroupTree, r: PollResult) -> bool {
    &&& o.cgroups@.len() > 0 ==> n.selected@ == seq![0usize]
    &&& o.cgroups@.len() == 0 ==> n.selected@.len() == 0
    &&& n.cgroups == o.cgroups
    &&& n.opened == o.opened
    &&& n.single_root == o.single_root
    &&& n.page_size == o.page_size
    &&& r matches Some(v) && v@.len() == 0
}

/// Selecting the last visible row.
pub open spec fn tree_last(o: CGroupTree, n: CGroupTree, r: PollResult) -> bool {
    let vis = visible_forest(o.cgroups@, 0, ips_view(o.opened@), Seq::<usize>::empty());
    &&& vis.len() > 0 ==> n.selected@ == vis[vis.len() - 1]
    &&& vis.len() == 0 ==> n.selected@.len() == 0
    &&& n.cgroups == o.cgroups
    &&& n.opened == o.opened
    &&& n.single_root == o.single_root
    &&& n.page_size == o.page_size
    &&& r matches Some(v) && v@.len() == 0
}

/// Collapsing everything.
pub open spec fn tree_closed_all(o: CGroupTree, n: CGroupTree, r: PollResult) -> bool {
    &&& n.opened@.len() == 0
    &&& n.selected == o.selected
    &&& n.cgroups == o.cgroups
    &&& n.single_root == o.single_root
    &&& n.page_size == o.page_size
    &&& r matches Some(v) && v@.len() == 0
}

impl CGroupTree {
    /// The currently visible rows, in display order.
    pub fn visible(&self) -> (r: Vec<Vec<usize>>)
        ensures
            ips_view(r@) == visible_forest(
                self.cgroups@,
                0,
                ips_view(self.opened@),
                Seq::<usize>::empty(),
            ),
    {
        let mut out: Vec<Vec<usize>> = Vec::new();
        let pref: Vec<usize> = Vec::new();
        flatten_visible(&self.cgroups, &self.opened, &pref, &mut out);
        proof {
            assert(pref@ =~= Seq::<usize>::empty());
            assert(ips_view(Seq::<Vec<usize>>::empty()) =~= Seq::<Seq<usize>>::empty());
            assert(ips_view(out@) =~= visible_forest(
                self.cgroups@,
                0,
                ips_view(self.opened@),
                Seq::<usize>::empty(),
            ));
        }
        out
    }

    /// Moves the selection by `amount` rows of the visible list, clamped
    /// to its ends; with nothing selected the movement starts from the
    /// fallback position `no_pos`.  Yields a redraw request when the
    /// selection moved, nothing when it did not (or nothing is visible).
    fn move_by(&mut self, amount: i32, no_pos: i32) -> (r: PollResult)
        ensures
            tree_moved_by(*old(self), *final(self), r, amount as int, no_pos as int),
    {
        let vis = self.visible();
        let ghost visv = ips_view(vis@);
        if vis.len() == 0 {
            return None;
        }
        proof {
            assert(visv.len() == vis@.len());
        }
        // find the first visible row equal to the selection
        let n = vis.len();
        let mut i: usize = 0;
        let mut cur: usize = 0;
        let mut found = false;
        while i < n && !found
            invariant
                0 <= i <= n,
                n == vis@.len(),
                visv == ips_view(vis@),
                visv.len() == n,
                !found ==> forall|j: int| 0 <= j < i ==> #[trigger] visv[j] != self.selected@,
                found ==> cur == i && i < n && visv[cur as int] == self.selected@ && forall|j: int|
                    0 <= j < cur ==> #[trigger] visv[j] != self.selected@,
            decreases n - i + (if found { 0int } else { 1int }),
        {
            if ip_eq(&vis[i], &self.selected) {
                found = true;
                cur = i;
                proof {
                    assert(visv[i as int] == self.selected@);
                }
            } else {
                i = i + 1;
            }
        }
        proof {
            lemma_row_index(visv, self.selected@);
            if found {
                assert(row_index(visv, self.selected@) == cur as int) by {
                    let ri = row_index(visv, self.selected@);
                    if ri < cur as int {
                        assert(visv[ri] == self.selected@);
                    } else if ri > cur as int {
                        assert(visv[cur as int] != self.selected@);
                    }
                }
            } else {
                assert(row_index(visv, self.selected@) == -1) by {
                    let ri = row_index(visv, self.selected@);
                    if ri >= 0 {
                        assert(visv[ri] == self.selected@);
                    }
                }
            }
        }
        let base: i128 = if found {
            cur as i128
        } else {
            no_pos as i128
        };
        let t: i128 = base + amount as i128;
        let last: i128 = n as i128 - 1;
        let newi: usize = if t < 0 {
            0
        } else if t > last {
            (last) as usize
        } else {
            t as usize
        };
        proof {
            assert(newi as int == clamp_row(base as int, amount as int, visv.len() as int));
        }
        if !found || newi != cur {
            self.selected = clone_ip(&vis[newi]);
            proof {
                assert(self.selected@ == visv[newi as int]);
            }
            Some(Vec::new())
        } else {
            None
        }
    }

    /// Moves the selection one row up; with nothing selected it lands one
    /// page down from the top.
    pub fn up(&mut self) -> (r: PollResult)
        ensures
            tree_moved_by(*old(self), *final(self), r, -1, old(self).page_size + 1),
    {
        let pg = self.page_size;
        self.move_by(-1, pg as i32 + 1)
    }

    /// Moves the selection one row down; with nothing selected it lands on
    /// the first row.
    pub fn down(&mut self) -> (r: PollResult)
        ensures
            tree_moved_by(*old(self), *final(self), r, 1, -1),
    {
        self.move_by(1, -1)
    }

    /// Moves the selection a page down.
    pub fn pg_down(&mut self) -> (r: PollResult)
        ensures
            tree_moved_by(*old(self), *final(self), r, old(self).page_size as int, 0),
    {
        let pg = self.page_size;
        self.move_by(pg as i32, 0)
    }

    /// Moves the selection a page up.
    pub fn pg_up(&mut self) -> (r: PollResult)
        ensures
            tree_moved_by(
                *old(self),
                *final(self),
                r,
                -(old(self).page_size as int),
                old(self).page_size as int,
            ),
    {
        let pg = self.page_size;
        self.move_by(-(pg as i32), pg as i32)
    }

    /// Selects the first row.
    pub fn first(&mut self) -> (r: PollResult)
        ensures
            tree_first(*old(self), *final(self), r),
    {
        if self.cgroups.len() > 0 {
            let mut ip: Vec<usize> = Vec::new();
            ip.push(0);
            proof {
                assert(ip@ =~= seq![0usize]);
            }
            self.selected = ip;
        } else {
            self.selected = Vec::new();
        }
        Some(Vec::new())
    }

    /// Selects the last visible row.
    pub fn last(&mut self) -> (r: PollResult)
        ensures
            tree_last(*old(self), *final(self), r),
    {
        let vis = self.visible();
        if vis.len() > 0 {
            self.selected = clone_ip(&vis[vis.len() - 1]);
            proof {
                assert(ips_view(vis@)[vis@.len() - 1] == vis@[vis@.len() - 1]@);
            }
        } else {
            self.selected = Vec::new();
        }
        Some(Vec::new())
    }

    /// Collapses the selected node if it is expanded, and moves to its
    /// parent otherwise.
    pub fn left(&mut self) -> (r: PollResult)
        ensures
            tree_left(*old(self), *final(self), r),
    {
        if ip_in(&self.opened, &self.selected) {
            // close the selected node
            let n = self.opened.len();
            let mut kept: Vec<Vec<usize>> = Vec::new();
            let mut i: usize = 0;
            while i < n
                invariant
                    0 <= i <= n,
                    n == self.opened@.len(),
                    forall|q: Seq<usize>| #[trigger] ips_view(kept@).contains(q) ==> (exists|j: int|
                        0 <= j < i && #[trigger] ips_view(self.opened@)[j] == q && q
                            != self.selected@),
                    forall|j: int|
                        0 <= j < i && #[trigger] ips_view(self.opened@)[j] != self.selected@
                            ==> ips_view(kept@).contains(ips_view(self.opened@)[j]),
                decreases n - i,
            {
                if !ip_eq(&self.opened[i], &self.selected) {
                    let ghost kb = ips_view(kept@);
                    kept.push(clone_ip(&self.opened[i]));
                    proof {
                        assert(ips_view(kept@) =~= kb.push(self.opened@[i as int]@));
                        assert forall|q: Seq<usize>| #[trigger] ips_view(kept@).contains(q)
                            implies (exists|j: int|
                            0 <= j < i + 1 && #[trigger] ips_view(self.opened@)[j] == q && q
                                != self.selected@) by {
                            let jj = choose|jj: int|
                                0 <= jj < ips_view(kept@).len() && ips_view(kept@)[jj] == q;
                            if jj < kb.len() {
                                assert(kb.contains(q));
                            } else {
                                assert(ips_view(self.opened@)[i as int] == q);
                            }
                        }
                        assert forall|j: int|
                            0 <= j < i + 1 && #[trigger] ips_view(self.opened@)[j]
                                != self.selected@ implies ips_view(kept@).contains(
                            ips_view(self.opened@)[j],
                        ) by {
                            if j < i as int {
                                assert(kb.contains(ips_view(self.opened@)[j]));
                                let jj = choose|jj: int|
                                    0 <= jj < kb.len() && kb[jj] == ips_view(self.opened@)[j];
                                assert(ips_view(kept@)[jj] == ips_view(self.opened@)[j]);
                            } else {
                                assert(ips_view(kept@)[kb.len() as int] == ips_view(
                                    self.opened@,
                                )[j]);
                            }
                        }
                    }
                }
                i = i + 1;
            }
            let ghost oldopen = ips_view(self.opened@);
            self.opened = kept;
            proof {
                assert forall|q: Seq<usize>| #[trigger] ips_view(self.opened@).contains(q) <==> (
                    oldopen.contains(q) && q != old(self).selected@) by {
                    if oldopen.contains(q) && q != old(self).selected@ {
                        let j = choose|j: int| 0 <= j < oldopen.len() && oldopen[j] == q;
                    }
                }
            }
        } else {
            if self.selected.len() > 0 {
                let _ = self.selected.pop();
                proof {
                    assert(self.selected@ =~= old(self).selected@.take(
                        old(self).selected@.len() - 1,
                    ));
                }
            } else {
                proof {
                    assert(self.selected@ =~= old(self).selected@.take(0));
                }
            }
        }
        Some(Vec::new())
    }

    /// Expands the selected node.
    pub fn right(&mut self) -> (r: PollResult)
        ensures
            tree_right(*old(self), *final(self), r),
    {
        if self.selected.len() > 0 && !ip_in(&self.opened, &self.selected) {
            let ghost ob = ips_view(self.opened@);
            let ip = clone_ip(&self.selected);
            self.opened.push(ip);
            proof {
                assert(ips_view(self.opened@) =~= ob.push(old(self).selected@));
                assert forall|q: Seq<usize>| #[trigger] ips_view(self.opened@).contains(q) implies (
                    ob.contains(q) || q == old(self).selected@) by {
                    let jj = choose|jj: int|
                        0 <= jj < ips_view(self.opened@).len() && ips_view(self.opened@)[jj] == q;
                    if jj < ob.len() {
                        assert(ob.contains(q));
                    }
                }
                assert forall|q: Seq<usize>| (ob.contains(q) || (old(self).selected@.len() > 0 && q
                    == old(self).selected@)) implies #[trigger] ips_view(
                    self.opened@,
                ).contains(q) by {
                    if ob.contains(q) {
                        let jj = choose|jj: int| 0 <= jj < ob.len() && ob[jj] == q;
                        assert(ips_view(self.opened@)[jj] == q);
                    } else {
                        assert(ips_view(self.opened@)[ob.len() as int] == q);
                    }
                }
            }
        }
        Some(Vec::new())
    }

    /// Collapses every expanded node.
    pub fn close_all(&mut self) -> (r: PollResult)
        ensures
            tree_closed_all(*old(self), *final(self), r),
    {
        self.opened = Vec::new();
        Some(Vec::new())
    }

    /// Records the number of rows one page of the display holds.
    pub fn set_page_size(&mut self, rows: u16)
        ensures
            final(self).page_size == rows,
            final(self).cgroups == old(self).cgroups,
            final(self).selected == old(self).selected,
            final(self).opened == old(self).opened,
            final(self).single_root == old(self).single_root,
    {
        self.page_size = rows;
    }
}

} // verus!
