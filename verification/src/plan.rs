//! The assignment engine, assembled: one refresh pass from a tree snapshot
//! and a workspace list to the (window, mark) pairs and the commands that
//! apply them. Everything here is a function of its inputs alone, so one
//! snapshot always produces one plan.

use vstd::prelude::*;
use crate::command::command_spec;
use crate::command::format_mark_command;
use crate::marks::MarkAllocator;
use crate::marks::default_alphabet;
use crate::marks::default_marks;
use crate::marks::pairs_spec;
use crate::tree::Tree;
use crate::tree::TreeView;
use crate::tree::all_windows;
use crate::tree::collect_windows;
use crate::tree::strs_view;
use crate::workspace::WsView;
use crate::workspace::Workspace;
use crate::workspace::selector_spec;
use crate::workspace::visible_workspace_names;
use crate::workspace::wss_view;

verus! {

broadcast use vstd::seq_lib::group_seq_properties;

/// The plan of one refresh: the eligible windows of the snapshot, in visible
/// workspace scan order and depth-first traversal order, paired position by
/// position with the marks of the alphabet.
pub open spec fn plan_spec(t: TreeView, wss: Seq<WsView>, a: Seq<char>) -> Seq<(i64, char)> {
    pairs_spec(all_windows(t, selector_spec(wss)), a)
}

/// The command texts that apply a list of pairs, one per pair, in order.
pub open spec fn commands_spec(ps: Seq<(i64, char)>) -> Seq<Seq<char>> {
    ps.map_values(|p: (i64, char)| command_spec(p.0, p.1))
}

/// Plans one refresh pass: which window gets which mark of `alphabet`, for
/// the given tree snapshot and workspace list.
pub fn plan_marks(tree: &Tree, workspaces: Vec<Workspace>, alphabet: Vec<char>) -> (pairs: Vec<
    (i64, char),
>)
    requires
        tree.wf(),
    ensures
        pairs@ == plan_spec(tree@, wss_view(workspaces@), alphabet@),
{
    let names = visible_workspace_names(workspaces);
    let windows = collect_windows(tree, &names);
    let mut alloc = MarkAllocator::new(alphabet);
    crate::marks::assign_marks(&windows, &mut alloc)
}

/// Turns a plan into the commands that apply it, in order.
#[verifier::loop_isolation(false)]
pub fn mark_commands(pairs: &Vec<(i64, char)>) -> (cmds: Vec<String>)
    ensures
        strs_view(cmds@) == commands_spec(pairs@),
{
    let mut cmds: Vec<String> = Vec::new();
    let mut i: usize = 0;
    while i < pairs.len()
        invariant
            i <= pairs@.len(),
            strs_view(cmds@) == commands_spec(pairs@.take(i as int)),
        decreases pairs@.len() - i,
    {
        let p = pairs[i];
        let c = format_mark_command(p.0, p.1);
        let ghost prev = cmds@;
        cmds.push(c);
        proof {
            assert(strs_view(cmds@).len() == i + 1);
            assert(strs_view(cmds@)[i as int] == c@);
            assert(commands_spec(pairs@.take(i as int + 1))[i as int] == command_spec(p.0, p.1));
            assert(forall|j: int|
                0 <= j < i ==> #[trigger] strs_view(cmds@)[j] == strs_view(prev)[j]);
            assert(forall|j: int|
                0 <= j < i ==> #[trigger] commands_spec(pairs@.take(i as int))[j] == commands_spec(
                    pairs@.take(i as int + 1),
                )[j]);
            assert(strs_view(cmds@) =~= commands_spec(pairs@.take(i as int + 1)));
        }
        i += 1;
    }
    proof {
        assert(pairs@.take(pairs@.len() as int) =~= pairs@);
    }
    cmds
}

/// One whole refresh, minus the socket: from snapshot and workspace list to
/// the mark commands under the default alphabet, in the order they are to be
/// sent.
pub fn refresh_commands(tree: &Tree, workspaces: Vec<Workspace>) -> (cmds: Vec<String>)
    requires
        tree.wf(),
    ensures
        strs_view(cmds@) == commands_spec(plan_spec(tree@, wss_view(workspaces@), default_marks())),
{
    let alphabet = default_alphabet();
    let pairs = plan_marks(tree, workspaces, alphabet);
    mark_commands(&pairs)
}

/// With `W` eligible windows in full traversal order and an alphabet of `K`
/// distinct marks: when `W <= K` every window is paired with the mark at its
/// own 0-indexed traversal position, all distinct; when `W > K` exactly the
/// first `K` windows are paired and the rest receive nothing.
pub proof fn lemma_plan_positions(t: TreeView, wss: Seq<WsView>, a: Seq<char>)
    requires
        forall|i: int, j: int| 0 <= i < j < a.len() ==> a[i] != a[j],
    ensures
        all_windows(t, selector_spec(wss)).len() <= a.len() ==> plan_spec(t, wss, a).len()
            == all_windows(t, selector_spec(wss)).len(),
        all_windows(t, selector_spec(wss)).len() > a.len() ==> plan_spec(t, wss, a).len()
            == a.len(),
        forall|k: int|
            0 <= k < plan_spec(t, wss, a).len() ==> #[trigger] plan_spec(t, wss, a)[k] == (
            all_windows(t, selector_spec(wss))[k],
            a[k],
            ),
        forall|i: int, j: int|
            0 <= i < j < plan_spec(t, wss, a).len() ==> plan_spec(t, wss, a)[i].1 != plan_spec(
                t,
                wss,
                a,
            )[j].1,
{
    crate::marks::lemma_mark_positions(all_windows(t, selector_spec(wss)), a);
    crate::marks::lemma_marks_distinct(all_windows(t, selector_spec(wss)), a);
}

/// Re-running assignment on an identical snapshot yields identical pairs:
/// the plan is a function of the tree, the workspace list and the alphabet,
/// with no hidden randomness or hash-order dependence.
pub proof fn lemma_plan_deterministic(
    p1: Seq<(i64, char)>,
    p2: Seq<(i64, char)>,
    t: TreeView,
    wss: Seq<WsView>,
    a: Seq<char>,
)
    requires
        p1 == plan_spec(t, wss, a),
        p2 == plan_spec(t, wss, a),
    ensures
        p1 == p2,
{
}

} // verus!
