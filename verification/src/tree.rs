//! The layout tree: an arena of nodes with index-based child references, one
//! read-only snapshot per refresh, and the depth-first traversal that lists
//! the windows eligible for a mark.
//!
//! A node's children are indices into the arena. A well-formed tree stores
//! every node before its children (each child index is strictly greater than
//! its parent's), which is the natural order when the arena is filled by a
//! pre-order walk and gives the traversal an obvious termination measure.

use vstd::prelude::*;

verus! {

/// The kind of a container in the layout tree.
#[derive(Clone, Copy, Debug, PartialEq, Eq, Structural)]
pub enum NodeKind {
    Root,
    Output,
    Workspace,
    DockArea,
    SplitContainer,
    FloatingContainer,
    Window,
    Other,
}

/// One node of the layout tree snapshot.
pub struct Node {
    /// Stable identifier of the container in the window manager.
    pub id: i64,
    pub kind: NodeKind,
    /// Display name; workspace nodes carry their workspace name here.
    pub name: Option<String>,
    /// True iff this node is a leaf holding an actual on-screen window.
    pub holds_window: bool,
    /// Arena indices of the regular children, in layout order.
    pub children: Vec<usize>,
    /// Arena indices of the floating children, visited after the regular ones.
    pub floating: Vec<usize>,
}

/// Mathematical model of one node.
pub ghost struct NodeView {
    pub id: i64,
    pub kind: NodeKind,
    pub name: Option<Seq<char>>,
    pub holds_window: bool,
    pub children: Seq<int>,
    pub floating: Seq<int>,
}

impl View for Node {
    type V = NodeView;

    open spec fn view(&self) -> NodeView {
        NodeView {
            id: self.id,
            kind: self.kind,
            name: match self.name {
                Some(s) => Some(s@),
                None => None,
            },
            holds_window: self.holds_window,
            children: self.children@.map_values(|c: usize| c as int),
            floating: self.floating@.map_values(|c: usize| c as int),
        }
    }
}

/// One tree snapshot: the arena and the index of its root.
pub struct Tree {
    pub nodes: Vec<Node>,
    pub root: usize,
}

/// Mathematical model of a tree snapshot.
pub ghost struct TreeView {
    pub nodes: Seq<NodeView>,
    pub root: int,
}

impl View for Tree {
    type V = TreeView;

    open spec fn view(&self) -> TreeView {
        TreeView { nodes: self.nodes@.map_values(|n: Node| n@), root: self.root as int }
    }
}

/// Every child index of node `i` points past `i` and into the arena.
pub open spec fn node_wf(t: Seq<NodeView>, i: int) -> bool {
    &&& forall|k: int|
        0 <= k < t[i].children.len() ==> i < #[trigger] t[i].children[k] < t.len()
    &&& forall|k: int|
        0 <= k < t[i].floating.len() ==> i < #[trigger] t[i].floating[k] < t.len()
}

pub open spec fn nodes_wf(t: Seq<NodeView>) -> bool {
    forall|i: int| 0 <= i < t.len() ==> #[trigger] node_wf(t, i)
}

impl Tree {
    /// The arena is in pre-order (children after parents, all in bounds) and
    /// the root index is valid.
    pub open spec fn wf(&self) -> bool {
        &&& nodes_wf(self@.nodes)
        &&& 0 <= self@.root < self@.nodes.len()
    }

    /// Runtime check of `wf`, so unverified callers can validate an arena
    /// they built before handing it to the traversal.
    pub fn is_well_formed(&self) -> (b: bool)
        ensures
            b == self.wf(),
    {
        if self.root >= self.nodes.len() {
            return false;
        }
        let n = self.nodes.len();
        let mut i: usize = 0;
        while i < n
            invariant
                n == self@.nodes.len(),
                i <= n,
                forall|j: int| 0 <= j < i ==> #[trigger] node_wf(self@.nodes, j),
            decreases n - i,
        {
            let node = &self.nodes[i];
            let mut k: usize = 0;
            while k < node.children.len()
                invariant
                    n == self@.nodes.len(),
                    i < n,
                    node@ == self@.nodes[i as int],
                    k <= node@.children.len(),
                    forall|q: int|
                        0 <= q < k ==> i < #[trigger] node@.children[q] < n,
                decreases node@.children.len() - k,
            {
                let c = node.children[k];
                if c <= i || c >= n {
                    proof {
                        assert(node@.children[k as int] == c as int);
                        assert(!node_wf(self@.nodes, i as int));
                    }
                    return false;
                }
                k += 1;
            }
            let mut k2: usize = 0;
            while k2 < node.floating.len()
                invariant
                    n == self@.nodes.len(),
                    i < n,
                    node@ == self@.nodes[i as int],
                    k2 <= node@.floating.len(),
                    forall|q: int|
                        0 <= q < k2 ==> i < #[trigger] node@.floating[q] < n,
                decreases node@.floating.len() - k2,
            {
                let c = node.floating[k2];
                if c <= i || c >= n {
                    proof {
                        assert(node@.floating[k2 as int] == c as int);
                        assert(!node_wf(self@.nodes, i as int));
                    }
                    return false;
                }
                k2 += 1;
            }
            proof {
                assert(node_wf(self@.nodes, i as int));
            }
            i += 1;
        }
        true
    }
}

/// A node at which the traversal stops without descending: a dock area, or a
/// workspace other than the one currently being processed.
pub open spec fn pruned(n: NodeView, ws: Seq<char>) -> bool {
    ||| n.kind is DockArea
    ||| (n.kind is Workspace && n.name != Some(ws))
}

/// The window ids a node contributes while processing workspace `ws`, in
/// depth-first order: the node's own window if it holds one, then its regular
/// children in order, then its floating children in order. A pruned node and
/// anything out of bounds contribute nothing.
pub open spec fn walk_node(t: Seq<NodeView>, i: int, ws: Seq<char>) -> Seq<i64>
    decreases t.len() - i, 1int, 0int,
{
    if 0 <= i < t.len() {
        if pruned(t[i], ws) {
            Seq::empty()
        } else {
            (if t[i].holds_window {
                seq![t[i].id]
            } else {
                Seq::empty()
            }) + walk_kids(t, i, t[i].children + t[i].floating, 0, ws)
        }
    } else {
        Seq::empty()
    }
}

/// The windows contributed by the children `cs[k..]` of node `i`, in order.
/// Only indices past the parent and inside the arena are followed, which is
/// all of them once the tree is well formed.
pub open spec fn walk_kids(t: Seq<NodeView>, i: int, cs: Seq<int>, k: int, ws: Seq<char>) -> Seq<
    i64,
>
    decreases t.len() - i, 0int, cs.len() - k,
{
    if 0 <= k < cs.len() {
        (if i < cs[k] < t.len() {
            walk_node(t, cs[k], ws)
        } else {
            Seq::empty()
        }) + walk_kids(t, i, cs, k + 1, ws)
    } else {
        Seq::empty()
    }
}

/// The windows of the whole snapshot: one full traversal from the root per
/// visible workspace name, `names[k..]`, concatenated in that order.
pub open spec fn windows_from(t: TreeView, names: Seq<Seq<char>>, k: int) -> Seq<i64>
    decreases names.len() - k,
{
    if 0 <= k < names.len() {
        walk_node(t.nodes, t.root, names[k]) + windows_from(t, names, k + 1)
    } else {
        Seq::empty()
    }
}

/// All eligible windows of the snapshot, in global mark order, for the given
/// visible workspace names in scan order.
pub open spec fn all_windows(t: TreeView, names: Seq<Seq<char>>) -> Seq<i64> {
    windows_from(t, names, 0)
}

/// The views of a list of workspace names.
pub open spec fn strs_view(names: Seq<String>) -> Seq<Seq<char>> {
    names.map_values(|s: String| s@)
}

/// Depth-first traversal from node `i`, scoped to workspace `ws`: appends the
/// id of every eligible window in the subtree, in visual order, to `out`.
pub fn visit(t: &Tree, i: usize, ws: &String, out: &mut Vec<i64>)
    requires
        t.wf(),
        i < t@.nodes.len(),
    ensures
        final(out)@ == old(out)@ + walk_node(t@.nodes, i as int, ws@),
    decreases t@.nodes.len() - i,
{
    let ghost ns = t@.nodes;
    let ghost iv = i as int;
    let node = &t.nodes[i];
    proof {
        assert(node@ == ns[iv]);
    }
    match node.kind {
        NodeKind::DockArea => {
            proof {
                assert(walk_node(ns, iv, ws@) == Seq::<i64>::empty());
                assert(out@ =~= old(out)@ + walk_node(ns, iv, ws@));
            }
            return ;
        },
        NodeKind::Workspace => {
            let matched = match &node.name {
                Some(n) => *n == *ws,
                None => false,
            };
            if !matched {
                proof {
                    assert(pruned(ns[iv], ws@));
                    assert(walk_node(ns, iv, ws@) == Seq::<i64>::empty());
                    assert(out@ =~= old(out)@ + walk_node(ns, iv, ws@));
                }
                return ;
            }
        },
        _ => {},
    }
    proof {
        assert(!pruned(ns[iv], ws@));
    }
    if node.holds_window {
        out.push(node.id);
    }
    let ghost base = out@;
    let ghost win = if ns[iv].holds_window {
        seq![ns[iv].id]
    } else {
        Seq::<i64>::empty()
    };
    let ghost cs = ns[iv].children + ns[iv].floating;
    proof {
        assert(base =~= old(out)@ + win);
        assert(walk_node(ns, iv, ws@) == win + walk_kids(ns, iv, cs, 0, ws@));
        assert(node_wf(ns, iv));
    }
    let mut k: usize = 0;
    while k < node.children.len()
        invariant
            t.wf(),
            iv == i as int,
            i < ns.len(),
            ns == t@.nodes,
            node@ == ns[iv],
            cs == ns[iv].children + ns[iv].floating,
            k <= ns[iv].children.len(),
            base + walk_kids(ns, iv, cs, 0, ws@) == out@ + walk_kids(ns, iv, cs, k as int, ws@),
        decreases ns[iv].children.len() - k,
    {
        let c = node.children[k];
        proof {
            assert(cs[k as int] == ns[iv].children[k as int]);
            assert(node_wf(ns, iv));
            assert(iv < c as int && (c as int) < ns.len());
            assert(walk_kids(ns, iv, cs, k as int, ws@) == walk_node(ns, c as int, ws@)
                + walk_kids(ns, iv, cs, k as int + 1, ws@));
        }
        let ghost before = out@;
        visit(t, c, ws, out);
        proof {
            assert((before + walk_node(ns, c as int, ws@)) + walk_kids(ns, iv, cs, k as int + 1, ws@)
                =~= before + (walk_node(ns, c as int, ws@) + walk_kids(ns, iv, cs, k as int + 1, ws@)));
        }
        k += 1;
    }
    let ghost nc = ns[iv].children.len() as int;
    let mut k2: usize = 0;
    while k2 < node.floating.len()
        invariant
            t.wf(),
            iv == i as int,
            i < ns.len(),
            ns == t@.nodes,
            node@ == ns[iv],
            cs == ns[iv].children + ns[iv].floating,
            nc == ns[iv].children.len() as int,
            k2 <= ns[iv].floating.len(),
            base + walk_kids(ns, iv, cs, 0, ws@) == out@ + walk_kids(ns, iv, cs, nc + k2, ws@),
        decreases ns[iv].floating.len() - k2,
    {
        let c = node.floating[k2];
        proof {
            assert(cs[nc + k2] == ns[iv].floating[k2 as int]);
            assert(node_wf(ns, iv));
            assert(iv < c as int && (c as int) < ns.len());
            assert(walk_kids(ns, iv, cs, nc + k2, ws@) == walk_node(ns, c as int, ws@)
                + walk_kids(ns, iv, cs, nc + k2 + 1, ws@));
        }
        let ghost before = out@;
        visit(t, c, ws, out);
        proof {
            assert((before + walk_node(ns, c as int, ws@)) + walk_kids(ns, iv, cs, nc + k2 + 1, ws@)
                =~= before + (walk_node(ns, c as int, ws@) + walk_kids(ns, iv, cs, nc + k2 + 1, ws@)));
        }
        k2 += 1;
    }
    proof {
        assert(nc + k2 == cs.len());
        assert(walk_kids(ns, iv, cs, cs.len() as int, ws@) == Seq::<i64>::empty());
        assert(out@ + Seq::<i64>::empty() =~= out@);
        assert(out@ == base + walk_kids(ns, iv, cs, 0, ws@));
        assert((old(out)@ + win) + walk_kids(ns, iv, cs, 0, ws@) =~= old(out)@ + (win + walk_kids(
            ns,
            iv,
            cs,
            0,
            ws@,
        )));
    }
}

/// A node of kind DockArea contributes no windows at all, however deep in
/// the tree it stands: the traversal stops at the node itself without
/// descending, and in a tree its descendants are reachable only through it,
/// so the whole dock subtree stays out of every refresh.
pub proof fn lemma_dock_area_excluded(t: Seq<NodeView>, i: int, ws: Seq<char>)
    requires
        0 <= i < t.len(),
        t[i].kind is DockArea,
    ensures
        walk_node(t, i, ws) == Seq::<i64>::empty(),
{
}

/// A workspace node whose name is not among the visible names contributes
/// zero windows in every per-workspace traversal, descendants included, even
/// if its subtree holds windows: the traversal prunes at the workspace node.
pub proof fn lemma_hidden_workspace_excluded(t: Seq<NodeView>, i: int, names: Seq<Seq<char>>)
    requires
        0 <= i < t.len(),
        t[i].kind is Workspace,
        forall|k: int| 0 <= k < names.len() ==> t[i].name != Some(#[trigger] names[k]),
    ensures
        forall|k: int|
            0 <= k < names.len() ==> walk_node(t, i, #[trigger] names[k]) == Seq::<i64>::empty(),
{
    assert forall|k: int| 0 <= k < names.len() implies walk_node(t, i, names[k]) == Seq::<
        i64,
    >::empty() by {
        assert(pruned(t[i], names[k]));
    }
}

/// There is a chain of child links from node `i` down to node `j` on which
/// every node — `i` and `j` included — survives pruning for workspace `ws`.
pub open spec fn clear_path(t: Seq<NodeView>, i: int, j: int, ws: Seq<char>) -> bool
    decreases t.len() - i, 1int, 0int,
{
    &&& 0 <= i < t.len()
    &&& !pruned(t[i], ws)
    &&& (i == j || clear_path_via(t, i, t[i].children + t[i].floating, 0, j, ws))
}

/// Some child among `cs[k..]` of node `i` starts a clear path to `j`.
pub open spec fn clear_path_via(
    t: Seq<NodeView>,
    i: int,
    cs: Seq<int>,
    k: int,
    j: int,
    ws: Seq<char>,
) -> bool
    decreases t.len() - i, 0int, cs.len() - k,
{
    &&& 0 <= k < cs.len()
    &&& ((i < cs[k] < t.len() && clear_path(t, cs[k], j, ws)) || clear_path_via(
        t,
        i,
        cs,
        k + 1,
        j,
        ws,
    ))
}

/// Every id the traversal emits is the id of a window node reachable from
/// the traversal's entry node through unpruned nodes only. In particular no
/// window reachable only through a DockArea, or only through a workspace
/// other than the one being processed, is ever marked.
pub proof fn lemma_walk_ids_on_clear_paths(t: Seq<NodeView>, i: int, ws: Seq<char>)
    ensures
        forall|x: i64|
            walk_node(t, i, ws).contains(x) ==> exists|j: int|
                #[trigger] clear_path(t, i, j, ws) && t[j].holds_window && t[j].id == x,
    decreases t.len() - i, 1int, 0int,
{
    if 0 <= i < t.len() && !pruned(t[i], ws) {
        let cs = t[i].children + t[i].floating;
        lemma_walk_kids_ids_on_clear_paths(t, i, cs, 0, ws);
        assert forall|x: i64| walk_node(t, i, ws).contains(x) implies exists|j: int|
            #[trigger] clear_path(t, i, j, ws) && t[j].holds_window && t[j].id == x by {
            if t[i].holds_window && x == t[i].id {
                assert(clear_path(t, i, i, ws));
            } else {
                assert(walk_kids(t, i, cs, 0, ws).contains(x));
                let (j, k2) = choose|j: int, k2: int|
                    0 <= k2 < cs.len() && #[trigger] clear_path_via(t, i, cs, k2, j, ws)
                        && t[j].holds_window && t[j].id == x;
                lemma_clear_path_via_weaken(t, i, cs, k2, j, ws);
                assert(clear_path(t, i, j, ws));
            }
        }
    }
}

/// Over a whole refresh: every id in the collected output belongs to a
/// window node reachable from the root through unpruned nodes only, under
/// one of the visible workspace names. Windows inside dock areas or visible
/// only through hidden workspaces never reach the output.
pub proof fn lemma_output_ids_reachable(t: TreeView, names: Seq<Seq<char>>)
    ensures
        forall|x: i64|
            all_windows(t, names).contains(x) ==> exists|nk: int, j: int|
                0 <= nk < names.len() && #[trigger] clear_path(t.nodes, t.root, j, names[nk])
                    && t.nodes[j].holds_window && t.nodes[j].id == x,
{
    lemma_windows_from_ids_reachable(t, names, 0);
}

proof fn lemma_windows_from_ids_reachable(t: TreeView, names: Seq<Seq<char>>, k: int)
    ensures
        forall|x: i64|
            windows_from(t, names, k).contains(x) ==> exists|nk: int, j: int|
                k <= nk < names.len() && #[trigger] clear_path(t.nodes, t.root, j, names[nk])
                    && t.nodes[j].holds_window && t.nodes[j].id == x,
    decreases names.len() - k,
{
    if 0 <= k < names.len() {
        lemma_windows_from_ids_reachable(t, names, k + 1);
        lemma_walk_ids_on_clear_paths(t.nodes, t.root, names[k]);
        assert forall|x: i64| windows_from(t, names, k).contains(x) implies exists|nk: int, j: int|
            k <= nk < names.len() && #[trigger] clear_path(t.nodes, t.root, j, names[nk])
                && t.nodes[j].holds_window && t.nodes[j].id == x by {
            let head = walk_node(t.nodes, t.root, names[k]);
            if head.contains(x) {
                let j = choose|j: int|
                    #[trigger] clear_path(t.nodes, t.root, j, names[k])
                        && t.nodes[j].holds_window && t.nodes[j].id == x;
                assert(clear_path(t.nodes, t.root, j, names[k]));
            } else {
                assert(windows_from(t, names, k + 1).contains(x));
            }
        }
    }
}

proof fn lemma_clear_path_via_weaken(
    t: Seq<NodeView>,
    i: int,
    cs: Seq<int>,
    k: int,
    j: int,
    ws: Seq<char>,
)
    requires
        0 <= k,
        clear_path_via(t, i, cs, k, j, ws),
    ensures
        clear_path_via(t, i, cs, 0, j, ws),
    decreases k,
{
    if k > 0 {
        assert(clear_path_via(t, i, cs, k - 1, j, ws));
        lemma_clear_path_via_weaken(t, i, cs, k - 1, j, ws);
    }
}

proof fn lemma_walk_kids_ids_on_clear_paths(
    t: Seq<NodeView>,
    i: int,
    cs: Seq<int>,
    k: int,
    ws: Seq<char>,
)
    ensures
        forall|x: i64|
            walk_kids(t, i, cs, k, ws).contains(x) ==> exists|j: int, k2: int|
                k <= k2 < cs.len() && #[trigger] clear_path_via(t, i, cs, k2, j, ws)
                    && t[j].holds_window && t[j].id == x,
    decreases t.len() - i, 0int, cs.len() - k,
{
    if 0 <= k < cs.len() {
        lemma_walk_kids_ids_on_clear_paths(t, i, cs, k + 1, ws);
        if i < cs[k] < t.len() {
            lemma_walk_ids_on_clear_paths(t, cs[k], ws);
        }
        assert forall|x: i64| walk_kids(t, i, cs, k, ws).contains(x) implies exists|j: int, k2: int|
            k <= k2 < cs.len() && #[trigger] clear_path_via(t, i, cs, k2, j, ws)
                && t[j].holds_window && t[j].id == x by {
            let head = if i < cs[k] < t.len() {
                walk_node(t, cs[k], ws)
            } else {
                Seq::<i64>::empty()
            };
            if head.contains(x) {
                let j = choose|j: int|
                    #[trigger] clear_path(t, cs[k], j, ws) && t[j].holds_window && t[j].id == x;
                assert(clear_path_via(t, i, cs, k, j, ws));
            } else {
                assert(walk_kids(t, i, cs, k + 1, ws).contains(x));
                let (j, k2) = choose|j: int, k2: int|
                    k + 1 <= k2 < cs.len() && #[trigger] clear_path_via(t, i, cs, k2, j, ws)
                        && t[j].holds_window && t[j].id == x;
                assert(clear_path_via(t, i, cs, k2, j, ws));
            }
        }
    }
}

proof fn lemma_walk_kids_shift(t: Seq<NodeView>, i: int, a: Seq<int>, b: Seq<int>, k: int, ws: Seq<char>)
    requires
        0 <= k <= b.len(),
    ensures
        walk_kids(t, i, a + b, a.len() + k, ws) == walk_kids(t, i, b, k, ws),
    decreases b.len() - k,
{
    if k < b.len() {
        assert((a + b)[a.len() + k] == b[k]);
        lemma_walk_kids_shift(t, i, a, b, k + 1, ws);
    }
}

proof fn lemma_walk_kids_concat(t: Seq<NodeView>, i: int, a: Seq<int>, b: Seq<int>, k: int, ws: Seq<char>)
    requires
        0 <= k <= a.len(),
    ensures
        walk_kids(t, i, a + b, k, ws) == walk_kids(t, i, a, k, ws) + walk_kids(t, i, b, 0, ws),
    decreases a.len() - k,
{
    if k < a.len() {
        assert((a + b)[k] == a[k]);
        lemma_walk_kids_concat(t, i, a, b, k + 1, ws);
        let head = if i < a[k] < t.len() {
            walk_node(t, a[k], ws)
        } else {
            Seq::<i64>::empty()
        };
        assert((head + walk_kids(t, i, a, k + 1, ws)) + walk_kids(t, i, b, 0, ws) =~= head + (
        walk_kids(t, i, a, k + 1, ws) + walk_kids(t, i, b, 0, ws)));
    } else {
        lemma_walk_kids_shift(t, i, a, b, 0, ws);
        assert(walk_kids(t, i, a, k, ws) == Seq::<i64>::empty());
        assert(Seq::<i64>::empty() + walk_kids(t, i, b, 0, ws) =~= walk_kids(t, i, b, 0, ws));
    }
}

/// Within one container, floating children are assigned strictly after all
/// regular children and their descendants: a node's contribution is its own
/// window, then everything below its regular children, then everything below
/// its floating children, never interleaved.
pub proof fn lemma_floating_after_children(t: Seq<NodeView>, i: int, ws: Seq<char>)
    requires
        0 <= i < t.len(),
        !pruned(t[i], ws),
    ensures
        walk_node(t, i, ws) == (if t[i].holds_window {
            seq![t[i].id]
        } else {
            Seq::<i64>::empty()
        }) + walk_kids(t, i, t[i].children, 0, ws) + walk_kids(t, i, t[i].floating, 0, ws),
{
    lemma_walk_kids_concat(t, i, t[i].children, t[i].floating, 0, ws);
    let win = if t[i].holds_window {
        seq![t[i].id]
    } else {
        Seq::<i64>::empty()
    };
    assert(win + (walk_kids(t, i, t[i].children, 0, ws) + walk_kids(t, i, t[i].floating, 0, ws))
        =~= (win + walk_kids(t, i, t[i].children, 0, ws)) + walk_kids(t, i, t[i].floating, 0, ws));
}

/// Collects every eligible window id of the snapshot, in mark order: one full
/// traversal from the root per visible workspace name, in the given order.
pub fn collect_windows(t: &Tree, names: &Vec<String>) -> (w: Vec<i64>)
    requires
        t.wf(),
    ensures
        w@ == all_windows(t@, strs_view(names@)),
{
    let ghost nv = strs_view(names@);
    let mut out: Vec<i64> = Vec::new();
    let mut k: usize = 0;
    while k < names.len()
        invariant
            t.wf(),
            nv == strs_view(names@),
            k <= names.len(),
            windows_from(t@, nv, 0) == out@ + windows_from(t@, nv, k as int),
        decreases names.len() - k,
    {
        let name = &names[k];
        proof {
            assert(nv[k as int] == name@);
            assert(windows_from(t@, nv, k as int) == walk_node(t@.nodes, t@.root, name@)
                + windows_from(t@, nv, k as int + 1));
        }
        let ghost before = out@;
        visit(t, t.root, name, &mut out);
        proof {
            assert((before + walk_node(t@.nodes, t@.root, name@)) + windows_from(
                t@,
                nv,
                k as int + 1,
            ) =~= before + (walk_node(t@.nodes, t@.root, name@) + windows_from(
                t@,
                nv,
                k as int + 1,
            )));
        }
        k += 1;
    }
    proof {
        assert(windows_from(t@, nv, names@.len() as int) == Seq::<i64>::empty());
        assert(out@ + Seq::<i64>::empty() =~= out@);
    }
    out
}

} // verus!
