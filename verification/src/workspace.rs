//! The workspace selector: from the window manager's workspace list to the
//! ordered sequence of visible workspace names.
//!
//! Visible workspaces are processed top-to-bottom, then left-to-right on
//! screen, a stable scan order across several monitors: workspaces with equal
//! positions keep their order in the input list. The order is fixed by a
//! stable insertion sort on the (y, x) key, written out as a spec function,
//! so the selector's result is a function of the input list alone.

use vstd::prelude::*;

verus! {

broadcast use vstd::seq_lib::group_seq_properties;

/// One workspace of the current snapshot, as reported by the window manager.
pub struct Workspace {
    /// Unique workspace name; matches the name of a workspace node in the tree.
    pub name: String,
    /// Whether the workspace is currently shown on some output.
    pub visible: bool,
    /// Horizontal screen position of the workspace's rectangle.
    pub x: i32,
    /// Vertical screen position of the workspace's rectangle.
    pub y: i32,
}

/// Mathematical model of one workspace.
pub ghost struct WsView {
    pub name: Seq<char>,
    pub visible: bool,
    pub x: int,
    pub y: int,
}

impl View for Workspace {
    type V = WsView;

    open spec fn view(&self) -> WsView {
        WsView { name: self.name@, visible: self.visible, x: self.x as int, y: self.y as int }
    }
}

/// The views of a list of workspaces.
pub open spec fn wss_view(ws: Seq<Workspace>) -> Seq<WsView> {
    ws.map_values(|w: Workspace| w@)
}

/// The scan order on screen positions: top-to-bottom, then left-to-right.
pub open spec fn key_le(a: WsView, b: WsView) -> bool {
    a.y < b.y || (a.y == b.y && a.x <= b.x)
}

/// Inserts `x` into `s` after every element whose key is less than or equal
/// to `x`'s, which keeps elements with equal keys in their original order.
pub open spec fn insert_sorted(x: WsView, s: Seq<WsView>) -> Seq<WsView>
    decreases s.len(),
{
    if s.len() == 0 {
        seq![x]
    } else if key_le(s[0], x) {
        seq![s[0]] + insert_sorted(x, s.drop_first())
    } else {
        seq![x] + s
    }
}

/// Stable insertion sort by screen position: each element of `s`, left to
/// right, inserted into the sorted prefix.
pub open spec fn sort_by_position(s: Seq<WsView>) -> Seq<WsView>
    decreases s.len(),
{
    if s.len() == 0 {
        Seq::empty()
    } else {
        insert_sorted(s.last(), sort_by_position(s.drop_last()))
    }
}

/// The names of the visible workspaces of `s`, in order.
pub open spec fn visible_names_of(s: Seq<WsView>) -> Seq<Seq<char>>
    decreases s.len(),
{
    if s.len() == 0 {
        Seq::empty()
    } else {
        (if s[0].visible {
            seq![s[0].name]
        } else {
            Seq::empty()
        }) + visible_names_of(s.drop_first())
    }
}

/// What the selector returns: the visible workspaces' names in scan order.
pub open spec fn selector_spec(wss: Seq<WsView>) -> Seq<Seq<char>> {
    visible_names_of(sort_by_position(wss))
}

/// Ordered by the scan key: top-to-bottom, then left-to-right.
pub open spec fn sorted_by_key(s: Seq<WsView>) -> bool {
    forall|i: int, j: int| 0 <= i < j < s.len() ==> key_le(#[trigger] s[i], #[trigger] s[j])
}

proof fn lemma_insert_elements(x: WsView, s: Seq<WsView>)
    ensures
        forall|k: int|
            0 <= k < insert_sorted(x, s).len() ==> #[trigger] insert_sorted(x, s)[k] == x
                || s.contains(insert_sorted(x, s)[k]),
    decreases s.len(),
{
    if s.len() == 0 {
    } else if key_le(s[0], x) {
        lemma_insert_elements(x, s.drop_first());
        assert forall|k: int| 0 <= k < insert_sorted(x, s).len() implies #[trigger] insert_sorted(
            x,
            s,
        )[k] == x || s.contains(insert_sorted(x, s)[k]) by {
            if k == 0 {
                assert(s.contains(s[0]));
            } else {
                let e = insert_sorted(x, s.drop_first())[k - 1];
                assert(insert_sorted(x, s)[k] == e);
                if e != x {
                    let m = choose|m: int|
                        0 <= m < s.drop_first().len() && s.drop_first()[m] == e;
                    assert(s[m + 1] == e);
                }
            }
        }
    } else {
        assert forall|k: int| 0 <= k < insert_sorted(x, s).len() implies #[trigger] insert_sorted(
            x,
            s,
        )[k] == x || s.contains(insert_sorted(x, s)[k]) by {
            if k > 0 {
                assert(insert_sorted(x, s)[k] == s[k - 1]);
                assert(s.contains(s[k - 1]));
            }
        }
    }
}

proof fn lemma_insert_preserves_sorted(x: WsView, s: Seq<WsView>)
    requires
        sorted_by_key(s),
    ensures
        sorted_by_key(insert_sorted(x, s)),
    decreases s.len(),
{
    if s.len() == 0 {
    } else if key_le(s[0], x) {
        lemma_insert_preserves_sorted(x, s.drop_first());
        lemma_insert_elements(x, s.drop_first());
        let r = insert_sorted(x, s);
        let rt = insert_sorted(x, s.drop_first());
        assert forall|i: int, j: int| 0 <= i < j < r.len() implies key_le(
            #[trigger] r[i],
            #[trigger] r[j],
        ) by {
            if i == 0 {
                assert(r[0] == s[0]);
                let e = rt[j - 1];
                assert(r[j] == e);
                if e != x {
                    let m = choose|m: int|
                        0 <= m < s.drop_first().len() && s.drop_first()[m] == e;
                    assert(s[m + 1] == e);
                    assert(key_le(s[0], s[m + 1]));
                }
            } else {
                assert(r[i] == rt[i - 1] && r[j] == rt[j - 1]);
            }
        }
    } else {
    }
}

/// The workspace scan order is really sorted: in the selector's result every
/// earlier workspace is above, or level with and not right of, every later
/// one.
pub proof fn lemma_scan_order_sorted(s: Seq<WsView>)
    ensures
        sorted_by_key(sort_by_position(s)),
    decreases s.len(),
{
    if s.len() > 0 {
        lemma_scan_order_sorted(s.drop_last());
        lemma_insert_preserves_sorted(s.last(), sort_by_position(s.drop_last()));
    }
}

fn key_le_exec(a: &Workspace, b: &Workspace) -> (r: bool)
    ensures
        r == key_le(a@, b@),
{
    a.y < b.y || (a.y == b.y && a.x <= b.x)
}

/// `insert_sorted` inserts exactly at the first position whose key exceeds
/// the new element's.
proof fn lemma_insert_at(s: Seq<WsView>, x: WsView, p: int)
    requires
        0 <= p <= s.len(),
        forall|j: int| 0 <= j < p ==> key_le(#[trigger] s[j], x),
        p == s.len() || !key_le(s[p], x),
    ensures
        insert_sorted(x, s) == s.insert(p, x),
    decreases p,
{
    if p == 0 {
        if s.len() == 0 {
            assert(insert_sorted(x, s) =~= s.insert(0, x));
        } else {
            assert(!key_le(s[0], x));
            assert(insert_sorted(x, s) =~= s.insert(0, x));
        }
    } else {
        assert(key_le(s[0], x));
        lemma_insert_at(s.drop_first(), x, p - 1);
        assert(seq![s[0]] + s.drop_first().insert(p - 1, x) =~= s.insert(p, x));
    }
}

/// Inserts one workspace into an already position-sorted vector, after every
/// entry whose key is less than or equal to its own.
#[verifier::loop_isolation(false)]
fn insert_by_position(out: &mut Vec<Workspace>, w: Workspace)
    ensures
        wss_view(final(out)@) == insert_sorted(w@, wss_view(old(out)@)),
{
    let mut p: usize = 0;
    while p < out.len() && key_le_exec(&out[p], &w)
        invariant
            p <= out.len(),
            forall|j: int| 0 <= j < p ==> key_le(#[trigger] wss_view(out@)[j], w@),
            out@ == old(out)@,
        decreases out.len() - p,
    {
        p += 1;
    }
    proof {
        lemma_insert_at(wss_view(out@), w@, p as int);
    }
    let ghost prev = out@;
    out.insert(p, w);
    proof {
        assert(wss_view(out@) =~= wss_view(prev).insert(p as int, w@));
    }
}

/// Sorts the workspace list by screen position, top-to-bottom then
/// left-to-right, keeping equal positions in input order.
#[verifier::loop_isolation(false)]
pub fn sorted_by_position(ws: Vec<Workspace>) -> (r: Vec<Workspace>)
    ensures
        wss_view(r@) == sort_by_position(wss_view(ws@)),
{
    let ghost ov = wss_view(ws@);
    let mut rest = ws;
    let mut out: Vec<Workspace> = Vec::new();
    let ghost total = ov.len();
    let ghost mut k: int = 0;
    while rest.len() > 0
        invariant
            0 <= k <= total,
            rest@.len() == total - k,
            wss_view(rest@) =~= ov.skip(k),
            wss_view(out@) == sort_by_position(ov.take(k)),
        decreases rest@.len(),
    {
        let w = rest.remove(0);
        proof {
            assert(wss_view(rest@) =~= ov.skip(k).drop_first());
            assert(ov.skip(k).drop_first() =~= ov.skip(k + 1));
            assert(w@ == ov[k]);
        }
        insert_by_position(&mut out, w);
        proof {
            let tk = ov.take(k + 1);
            assert(tk.last() == ov[k]);
            assert(tk.drop_last() =~= ov.take(k));
            assert(sort_by_position(tk) == insert_sorted(ov[k], sort_by_position(ov.take(k))));
            k = k + 1;
        }
    }
    proof {
        assert(ov.take(total as int) =~= ov);
    }
    out
}

/// The workspace selector: the names of the visible workspaces, ordered by
/// vertical then horizontal screen position, ties kept in input order.
#[verifier::loop_isolation(false)]
pub fn visible_workspace_names(ws: Vec<Workspace>) -> (names: Vec<String>)
    ensures
        crate::tree::strs_view(names@) == selector_spec(wss_view(ws@)),
{
    let ghost goal = selector_spec(wss_view(ws@));
    let mut rest = sorted_by_position(ws);
    let mut out: Vec<String> = Vec::new();
    while rest.len() > 0
        invariant
            crate::tree::strs_view(out@) + visible_names_of(wss_view(rest@)) == goal,
        decreases rest@.len(),
    {
        let ghost before_rest = wss_view(rest@);
        let ghost before_out = out@;
        let w = rest.remove(0);
        proof {
            assert(wss_view(rest@) =~= before_rest.drop_first());
            assert(w@ == before_rest[0]);
            assert(visible_names_of(before_rest) == (if before_rest[0].visible {
                seq![before_rest[0].name]
            } else {
                Seq::<Seq<char>>::empty()
            }) + visible_names_of(before_rest.drop_first()));
        }
        if w.visible {
            out.push(w.name);
            proof {
                assert(crate::tree::strs_view(out@) =~= crate::tree::strs_view(before_out).push(
                    w@.name,
                ));
                assert(crate::tree::strs_view(before_out).push(w@.name) =~= crate::tree::strs_view(
                    before_out,
                ) + seq![before_rest[0].name]);
                assert((crate::tree::strs_view(before_out) + seq![before_rest[0].name])
                    + visible_names_of(wss_view(rest@)) =~= crate::tree::strs_view(before_out) + (
                seq![before_rest[0].name] + visible_names_of(wss_view(rest@))));
            }
        } else {
            proof {
                assert(crate::tree::strs_view(out@) + visible_names_of(wss_view(rest@)) =~= goal);
            }
        }
    }
    proof {
        assert(visible_names_of(wss_view(rest@)) == Seq::<Seq<char>>::empty());
        assert(crate::tree::strs_view(out@) + Seq::<Seq<char>>::empty() =~= crate::tree::strs_view(
            out@,
        ));
    }
    out
}

} // verus!
