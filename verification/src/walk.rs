//! Walks over the tree of controls: the children of a control in the order
//! they are drawn, and the control under the cursor.
//!
//! Controls with a free layout draw their children from the least recently
//! active to the most recently active, so that the control last used is on
//! top; hover goes the other way, from the top down. Controls with another
//! layout keep the order in which their children were pushed.
use vstd::prelude::*;

use crate::ui::{CtrlNode, Layout, link_ok};

verus! {

/// Every child and sibling link of `nodes` points at a control.
pub open spec fn walk_links_ok(nodes: Seq<CtrlNode>) -> bool {
    forall|i: int|
        0 <= i < nodes.len() ==> link_ok((#[trigger] nodes[i]).child_idx, nodes.len() as int)
            && link_ok(nodes[i].sibling_idx, nodes.len() as int)
}

/// The controls from `cur` on along sibling links, at most `fuel` of them.
pub open spec fn chain(nodes: Seq<CtrlNode>, cur: int, fuel: nat) -> Seq<usize>
    decreases fuel,
{
    if fuel == 0 {
        Seq::empty()
    } else {
        seq![cur as usize] + match nodes[cur].sibling_idx {
            Some(s) => chain(nodes, s as int, (fuel - 1) as nat),
            None => Seq::empty(),
        }
    }
}

/// The children of control `i` in the order they were pushed (a chain of
/// siblings is followed at most as many times as there are controls).
pub open spec fn children_of(nodes: Seq<CtrlNode>, i: int) -> Seq<usize> {
    match nodes[i].child_idx {
        Some(c) => chain(nodes, c as int, nodes.len()),
        None => Seq::empty(),
    }
}

/// The frame in which control `x` was last active or an ancestor of the
/// active control.
pub open spec fn activity(nodes: Seq<CtrlNode>, x: usize) -> u32 {
    nodes[x as int].last_frame_in_active_path
}

/// `s` with `x` put in before the trailing run of controls that were active
/// later than `x`.
pub open spec fn insert_by_activity(nodes: Seq<CtrlNode>, s: Seq<usize>, x: usize) -> Seq<usize>
    decreases s.len(),
{
    if s.len() == 0 {
        seq![x]
    } else if activity(nodes, s.last()) <= activity(nodes, x) {
        s.push(x)
    } else {
        insert_by_activity(nodes, s.drop_last(), x).push(s.last())
    }
}

/// `s` sorted from the least to the most recently active control, controls
/// of the same activity keeping their order.
pub open spec fn sort_by_activity(nodes: Seq<CtrlNode>, s: Seq<usize>) -> Seq<usize>
    decreases s.len(),
{
    if s.len() == 0 {
        s
    } else {
        insert_by_activity(nodes, sort_by_activity(nodes, s.drop_last()), s.last())
    }
}

/// `s` goes from the least to the most recently active control.
pub open spec fn sorted_by_activity(nodes: Seq<CtrlNode>, s: Seq<usize>) -> bool {
    forall|a: int, b: int|
        0 <= a < b < s.len() ==> activity(nodes, #[trigger] s[a]) <= activity(nodes, #[trigger] s[b])
}

/// The order in which the children of control `i` are drawn.
pub open spec fn draw_order_in(nodes: Seq<CtrlNode>, i: int) -> Seq<usize> {
    if nodes[i].layout == Layout::Free {
        sort_by_activity(nodes, children_of(nodes, i))
    } else {
        children_of(nodes, i)
    }
}

/// The order in which the children of control `i` are tried for hover: the
/// one drawn on top first.
pub open spec fn hover_order_in(nodes: Seq<CtrlNode>, i: int) -> Seq<usize> {
    if nodes[i].layout == Layout::Free {
        draw_order_in(nodes, i).reverse()
    } else {
        draw_order_in(nodes, i)
    }
}

/// Inserting `x` where the sorted insertion puts it: after position `j - 1`
/// when every control from `j` on was active later than `x` and the one
/// before `j` was not.
proof fn lemma_insert_at(nodes: Seq<CtrlNode>, s: Seq<usize>, x: usize, j: int)
    requires
        0 <= j <= s.len(),
        forall|k: int| j <= k < s.len() ==> activity(nodes, #[trigger] s[k]) > activity(nodes, x),
        j > 0 ==> activity(nodes, s[j - 1]) <= activity(nodes, x),
    ensures
        insert_by_activity(nodes, s, x) == s.insert(j, x),
    decreases s.len(),
{
    if s.len() == 0 {
        assert(s.insert(j, x) =~= seq![x]);
    } else if activity(nodes, s.last()) <= activity(nodes, x) {
        assert(j == s.len());
        assert(s.insert(j, x) =~= s.push(x));
    } else {
        assert(j < s.len());
        lemma_insert_at(nodes, s.drop_last(), x, j);
        assert(s.drop_last().insert(j, x).push(s.last()) =~= s.insert(j, x));
    }
}

/// Inserting keeps the controls of `s` and adds `x`, and keeps a sorted `s`
/// sorted.
proof fn lemma_insert_by_activity(nodes: Seq<CtrlNode>, s: Seq<usize>, x: usize)
    ensures
        insert_by_activity(nodes, s, x).to_multiset() =~= s.to_multiset().insert(x),
        sorted_by_activity(nodes, s) ==> sorted_by_activity(nodes, insert_by_activity(nodes, s, x)),
    decreases s.len(),
{
    broadcast use vstd::seq_lib::group_to_multiset_ensures;

    if s.len() == 0 {
        assert(seq![x] =~= Seq::<usize>::empty().push(x));
    } else if activity(nodes, s.last()) <= activity(nodes, x) {
    } else {
        let t = s.drop_last();
        lemma_insert_by_activity(nodes, t, x);
        assert(s =~= t.push(s.last()));
        let u = insert_by_activity(nodes, t, x);
        if sorted_by_activity(nodes, s) {
            assert(sorted_by_activity(nodes, t));
            // Every control of `u` is `x` or one of `t`, none active later
            // than `s.last()`.
            assert forall|k: int| 0 <= k < u.len() implies activity(nodes, #[trigger] u[k]) <= activity(
                nodes,
                s.last(),
            ) by {
                assert(u.to_multiset().count(u[k]) > 0);
                assert(u.contains(u[k]));
                if u[k] != x {
                    assert(t.to_multiset().count(u[k]) > 0);
                    assert(t.contains(u[k]));
                    let m = choose|m: int| 0 <= m < t.len() && t[m] == u[k];
                    assert(s[m] == t[m]);
                }
            }
        }
    }
}

/// Sorting by activity sorts, and keeps the controls it was given.
pub proof fn law_sort_by_activity(nodes: Seq<CtrlNode>, s: Seq<usize>)
    ensures
        sorted_by_activity(nodes, sort_by_activity(nodes, s)),
        sort_by_activity(nodes, s).to_multiset() =~= s.to_multiset(),
    decreases s.len(),
{
    broadcast use vstd::seq_lib::group_to_multiset_ensures;

    if s.len() > 0 {
        let t = s.drop_last();
        law_sort_by_activity(nodes, t);
        lemma_insert_by_activity(nodes, sort_by_activity(nodes, t), s.last());
        assert(s =~= t.push(s.last()));
    }
}

/// The children of control `parent`, in the order they were pushed.
pub fn collect_children(nodes: &[CtrlNode], parent: usize) -> (r: Vec<usize>)
    requires
        parent < nodes@.len(),
        walk_links_ok(nodes@),
    ensures
        r@ == children_of(nodes@, parent as int),
{
    let mut r: Vec<usize> = Vec::new();
    let mut cur = nodes[parent].child_idx;
    let mut fuel: usize = nodes.len();
    let ghost full = children_of(nodes@, parent as int);
    while fuel > 0 && cur.is_some()
        invariant
            walk_links_ok(nodes@),
            link_ok(cur, nodes@.len() as int),
            fuel <= nodes@.len(),
            full == r@ + match cur {
                Some(c) => chain(nodes@, c as int, fuel as nat),
                None => Seq::empty(),
            },
        decreases fuel,
    {
        let c = cur.unwrap();
        r.push(c);
        proof {
            assert(r@ + match nodes@[c as int].sibling_idx {
                Some(s) => chain(nodes@, s as int, (fuel - 1) as nat),
                None => Seq::empty(),
            } =~= full);
        }
        cur = nodes[c].sibling_idx;
        fuel = fuel - 1;
    }
    proof {
        if fuel == 0 {
            assert(r@ =~= full);
        } else {
            assert(r@ =~= full);
        }
    }
    r
}

/// The controls of `s` sorted from the least to the most recently active,
/// controls of the same activity keeping their order.
pub fn sort_indices_by_activity(nodes: &[CtrlNode], s: &Vec<usize>) -> (r: Vec<usize>)
    requires
        forall|k: int| 0 <= k < s@.len() ==> #[trigger] s@[k] < nodes@.len(),
    ensures
        r@ == sort_by_activity(nodes@, s@),
        forall|k: int| 0 <= k < r@.len() ==> #[trigger] r@[k] < nodes@.len(),
{
    let mut r: Vec<usize> = Vec::new();
    let mut i: usize = 0;
    while i < s.len()
        invariant
            i <= s@.len(),
            forall|k: int| 0 <= k < s@.len() ==> #[trigger] s@[k] < nodes@.len(),
            r@ == sort_by_activity(nodes@, s@.subrange(0, i as int)),
            r@.len() == i,
            forall|k: int| 0 <= k < r@.len() ==> #[trigger] r@[k] < nodes@.len(),
        decreases s@.len() - i,
    {
        let x = s[i];
        let key = nodes[x].last_frame_in_active_path;
        let mut j: usize = r.len();
        while j > 0 && nodes[r[j - 1]].last_frame_in_active_path > key
            invariant
                j <= r@.len(),
                forall|k: int| 0 <= k < r@.len() ==> #[trigger] r@[k] < nodes@.len(),
                key == activity(nodes@, x),
                forall|k: int| j <= k < r@.len() ==> activity(nodes@, #[trigger] r@[k]) > key,
            decreases j,
        {
            j = j - 1;
        }
        let ghost before = r@;
        proof {
            lemma_insert_at(nodes@, before, x, j as int);
            assert(s@.subrange(0, i + 1).drop_last() =~= s@.subrange(0, i as int));
            before.insert_ensures(j as int, x);
        }
        r.insert(j, x);
        proof {
            assert forall|k: int| 0 <= k < r@.len() implies #[trigger] r@[k] < nodes@.len() by {
                if k > j {
                    assert(r@[k] == before[k - 1]);
                }
            }
        }
        i = i + 1;
    }
    proof {
        assert(s@.subrange(0, s@.len() as int) =~= s@);
    }
    r
}

/// The control under the cursor among control `i` and what lies under it,
/// where `inside[k]` says whether the cursor is inside control `k`: none
/// when the cursor is not inside `i`; else the first hit among the children
/// of `i` in hover order, or `i` itself when no child is hit (or `depth`
/// levels were already walked down).
pub open spec fn hovered_in(nodes: Seq<CtrlNode>, inside: Seq<bool>, i: int, depth: nat) -> Option<usize>
    decreases depth, 0nat,
{
    if !inside[i] {
        None
    } else if depth == 0 {
        Some(i as usize)
    } else {
        match first_hovered(nodes, inside, hover_order_in(nodes, i), (depth - 1) as nat) {
            Some(h) => Some(h),
            None => Some(i as usize),
        }
    }
}

/// The first hit among the controls `cs` (each with what lies under it).
pub open spec fn first_hovered(nodes: Seq<CtrlNode>, inside: Seq<bool>, cs: Seq<usize>, depth: nat) -> Option<usize>
    decreases depth, cs.len() + 1,
{
    if cs.len() == 0 {
        None
    } else {
        match hovered_in(nodes, inside, cs[0] as int, depth) {
            Some(h) => Some(h),
            None => first_hovered(nodes, inside, cs.drop_first(), depth),
        }
    }
}

/// A chain of siblings stays among the controls.
proof fn lemma_chain_in_range(nodes: Seq<CtrlNode>, cur: int, fuel: nat)
    requires
        walk_links_ok(nodes),
        0 <= cur < nodes.len(),
    ensures
        forall|k: int| 0 <= k < chain(nodes, cur, fuel).len() ==> #[trigger] chain(nodes, cur, fuel)[k] < nodes.len(),
    decreases fuel,
{
    if fuel > 0 {
        assert(link_ok(nodes[cur].sibling_idx, nodes.len() as int));
        let rest = match nodes[cur].sibling_idx {
            Some(s) => chain(nodes, s as int, (fuel - 1) as nat),
            None => Seq::empty(),
        };
        if let Some(s) = nodes[cur].sibling_idx {
            lemma_chain_in_range(nodes, s as int, (fuel - 1) as nat);
        }
        assert forall|k: int| 0 <= k < chain(nodes, cur, fuel).len() implies #[trigger] chain(nodes, cur, fuel)[k] < nodes.len() by {
            if k > 0 {
                assert(chain(nodes, cur, fuel)[k] == rest[k - 1]);
            }
        }
    }
}

/// The children of a control, in any of the orders, are controls.
pub proof fn lemma_orders_in_range(nodes: Seq<CtrlNode>, i: int)
    requires
        walk_links_ok(nodes),
        0 <= i < nodes.len(),
    ensures
        forall|k: int| 0 <= k < children_of(nodes, i).len() ==> #[trigger] children_of(nodes, i)[k] < nodes.len(),
        forall|k: int| 0 <= k < draw_order_in(nodes, i).len() ==> #[trigger] draw_order_in(nodes, i)[k] < nodes.len(),
        forall|k: int| 0 <= k < hover_order_in(nodes, i).len() ==> #[trigger] hover_order_in(nodes, i)[k] < nodes.len(),
{
    broadcast use vstd::seq_lib::group_to_multiset_ensures;

    assert(link_ok(nodes[i].child_idx, nodes.len() as int));
    if let Some(c) = nodes[i].child_idx {
        lemma_chain_in_range(nodes, c as int, nodes.len());
    }
    let cs = children_of(nodes, i);
    let sorted = sort_by_activity(nodes, cs);
    law_sort_by_activity(nodes, cs);
    assert forall|k: int| 0 <= k < sorted.len() implies #[trigger] sorted[k] < nodes.len() by {
        assert(sorted.to_multiset().count(sorted[k]) > 0);
        assert(cs.contains(sorted[k]));
    }
}

/// The children of control `i` in the order they are drawn.
pub fn draw_order_of(nodes: &[CtrlNode], i: usize) -> (r: Vec<usize>)
    requires
        i < nodes@.len(),
        walk_links_ok(nodes@),
    ensures
        r@ == draw_order_in(nodes@, i as int),
{
    let cs = collect_children(nodes, i);
    proof {
        lemma_orders_in_range(nodes@, i as int);
    }
    match nodes[i].layout {
        Layout::Free => sort_indices_by_activity(nodes, &cs),
        _ => cs,
    }
}

/// The children of control `i` in the order they are tried for hover.
fn hover_order_of(nodes: &[CtrlNode], i: usize) -> (r: Vec<usize>)
    requires
        i < nodes@.len(),
        walk_links_ok(nodes@),
    ensures
        r@ == hover_order_in(nodes@, i as int),
{
    let d = draw_order_of(nodes, i);
    match nodes[i].layout {
        Layout::Free => {
            let mut r: Vec<usize> = Vec::new();
            let mut k: usize = d.len();
            while k > 0
                invariant
                    k <= d@.len(),
                    r@ =~= d@.subrange(k as int, d@.len() as int).reverse(),
                decreases k,
            {
                k = k - 1;
                r.push(d[k]);
                proof {
                    assert(d@.subrange(k as int, d@.len() as int).reverse() =~= d@.subrange(
                        k + 1,
                        d@.len() as int,
                    ).reverse().push(d@[k as int]));
                }
            }
            proof {
                assert(d@.subrange(0, d@.len() as int) =~= d@);
            }
            r
        },
        _ => d,
    }
}

/// The control under the cursor among control `i` and what lies under it
/// (see `hovered_in`).
pub fn hovered_from(nodes: &[CtrlNode], inside: &[bool], i: usize, depth: usize) -> (r: Option<usize>)
    requires
        i < nodes@.len(),
        inside@.len() == nodes@.len(),
        walk_links_ok(nodes@),
    ensures
        r == hovered_in(nodes@, inside@, i as int, depth as nat),
        r matches Some(h) ==> exists|path: Seq<int>|
            #[trigger] descent(nodes@, inside@, path) && path[0] == i && path.last() == h && path.len()
                <= depth + 1 && (path.len() == depth + 1 || none_inside(inside@, hover_order_in(nodes@, h as int))),
    decreases depth,
{
    proof {
        law_hovered_deepest(nodes@, inside@, i as int, depth as nat);
    }
    if !inside[i] {
        return None;
    }
    if depth == 0 {
        return Some(i);
    }
    let order = hover_order_of(nodes, i);
    proof {
        lemma_orders_in_range(nodes@, i as int);
        assert(order@.subrange(0, order@.len() as int) =~= order@);
    }
    let mut k: usize = 0;
    while k < order.len()
        invariant
            k <= order@.len(),
            order@ == hover_order_in(nodes@, i as int),
            i < nodes@.len(),
            inside@[i as int],
            forall|m: int| 0 <= m < order@.len() ==> #[trigger] order@[m] < nodes@.len(),
            inside@.len() == nodes@.len(),
            walk_links_ok(nodes@),
            depth > 0,
            first_hovered(nodes@, inside@, order@, (depth - 1) as nat) == first_hovered(
                nodes@,
                inside@,
                order@.subrange(k as int, order@.len() as int),
                (depth - 1) as nat,
            ),
        decreases order@.len() - k,
    {
        let h = hovered_from(nodes, inside, order[k], depth - 1);
        proof {
            assert(order@.subrange(k as int, order@.len() as int).drop_first() =~= order@.subrange(
                k + 1,
                order@.len() as int,
            ));
        }
        if h.is_some() {
            proof {
                let rest = order@.subrange(k as int, order@.len() as int);
                assert(rest[0] == order@[k as int]);
                assert(first_hovered(nodes@, inside@, rest, (depth - 1) as nat) == h);
                assert(first_hovered(nodes@, inside@, order@, (depth - 1) as nat) == h);
                assert(hovered_in(nodes@, inside@, i as int, depth as nat) == h);
                law_hovered_deepest(nodes@, inside@, i as int, depth as nat);
            }
            return h;
        }
        k = k + 1;
    }
    proof {
        law_hovered_deepest(nodes@, inside@, i as int, depth as nat);
    }
    Some(i)
}

/// The hovered control is a control that the cursor is inside, and there is
/// one exactly when the cursor is inside the control the search starts at.
pub proof fn law_hovered_inside(nodes: Seq<CtrlNode>, inside: Seq<bool>, i: int, depth: nat)
    requires
        0 <= i < nodes.len() <= usize::MAX,
        inside.len() == nodes.len(),
        walk_links_ok(nodes),
    ensures
        hovered_in(nodes, inside, i, depth) is None <==> !inside[i],
        hovered_in(nodes, inside, i, depth) matches Some(h) ==> h < nodes.len() && inside[h as int],
    decreases depth, 0nat,
{
    if inside[i] && depth > 0 {
        let order = hover_order_in(nodes, i);
        lemma_orders_in_range(nodes, i);
        lemma_first_hovered_inside(nodes, inside, order, (depth - 1) as nat);
        assert(hovered_in(nodes, inside, i, depth) == match first_hovered(nodes, inside, order, (depth - 1) as nat) {
            Some(h) => Some(h),
            None => Some(i as usize),
        });
    }
}

/// The first hit among controls is a control that the cursor is inside.
proof fn lemma_first_hovered_inside(nodes: Seq<CtrlNode>, inside: Seq<bool>, cs: Seq<usize>, depth: nat)
    requires
        forall|k: int| 0 <= k < cs.len() ==> #[trigger] cs[k] < nodes.len(),
        nodes.len() <= usize::MAX,
        inside.len() == nodes.len(),
        walk_links_ok(nodes),
    ensures
        first_hovered(nodes, inside, cs, depth) matches Some(h) ==> h < nodes.len() && inside[h as int],
    decreases depth, cs.len() + 1,
{
    if cs.len() > 0 {
        law_hovered_inside(nodes, inside, cs[0] as int, depth);
        lemma_first_hovered_inside(nodes, inside, cs.drop_first(), depth);
    }
}

/// `j` is where the first control of `cs` that the cursor is inside stands.
pub open spec fn first_inside_at(inside: Seq<bool>, cs: Seq<usize>, j: int) -> bool {
    &&& 0 <= j < cs.len()
    &&& inside[cs[j] as int]
    &&& forall|m: int| 0 <= m < j ==> !inside[#[trigger] cs[m] as int]
}

/// The cursor is inside none of the controls `cs`.
pub open spec fn none_inside(inside: Seq<bool>, cs: Seq<usize>) -> bool {
    forall|m: int| 0 <= m < cs.len() ==> !inside[#[trigger] cs[m] as int]
}

/// `c` is the first child of `x`, in hover order, that the cursor is inside.
pub open spec fn first_inside_child(nodes: Seq<CtrlNode>, inside: Seq<bool>, x: int, c: int) -> bool {
    exists|j: int| first_inside_at(inside, hover_order_in(nodes, x), j) && #[trigger] hover_order_in(nodes, x)[j] == c
}

/// `path` goes down from control to control, each time into the first child
/// (in hover order) that the cursor is inside, and the cursor is inside
/// every control on it.
pub open spec fn descent(nodes: Seq<CtrlNode>, inside: Seq<bool>, path: Seq<int>) -> bool {
    &&& path.len() > 0
    &&& forall|m: int| 0 <= m < path.len() ==> inside[#[trigger] path[m]]
    &&& forall|m: int| 0 <= m < path.len() - 1 ==> #[trigger] first_inside_child(nodes, inside, path[m], path[m + 1])
}

proof fn lemma_first_hovered_first(nodes: Seq<CtrlNode>, inside: Seq<bool>, cs: Seq<usize>, depth: nat)
    ensures
        first_hovered(nodes, inside, cs, depth) matches Some(h) ==> exists|j: int|
            first_inside_at(inside, cs, j) && #[trigger] hovered_in(nodes, inside, cs[j] as int, depth) == Some(h),
        first_hovered(nodes, inside, cs, depth) is None ==> none_inside(inside, cs),
    decreases cs.len(),
{
    if cs.len() > 0 {
        let rest = cs.drop_first();
        lemma_first_hovered_first(nodes, inside, rest, depth);
        if inside[cs[0] as int] {
            assert(hovered_in(nodes, inside, cs[0] as int, depth) is Some);
            assert(first_inside_at(inside, cs, 0));
        } else {
            assert(hovered_in(nodes, inside, cs[0] as int, depth) is None);
            if let Some(h) = first_hovered(nodes, inside, rest, depth) {
                let j = choose|j: int| first_inside_at(inside, rest, j) && #[trigger] hovered_in(nodes, inside, rest[j] as int, depth) == Some(h);
                assert(rest[j] == cs[j + 1]);
                assert forall|m: int| 0 <= m < j + 1 implies !inside[#[trigger] cs[m] as int] by {
                    if m > 0 {
                        assert(cs[m] == rest[m - 1]);
                    }
                }
                assert(first_inside_at(inside, cs, j + 1));
            } else {
                assert forall|m: int| 0 <= m < cs.len() implies !inside[#[trigger] cs[m] as int] by {
                    if m > 0 {
                        assert(cs[m] == rest[m - 1]);
                    }
                }
            }
        }
    }
}

/// The hover search goes down into the first child under the cursor, level
/// by level, and stops at a control with no child under the cursor: the
/// control it finds ends a descent from `i` of at most `depth` steps, and
/// unless the search used up all `depth` levels, the cursor is inside none
/// of its children.
pub proof fn law_hovered_deepest(nodes: Seq<CtrlNode>, inside: Seq<bool>, i: int, depth: nat)
    requires
        0 <= i <= usize::MAX,
    ensures
        hovered_in(nodes, inside, i, depth) matches Some(h) ==> exists|path: Seq<int>|
            #[trigger] descent(nodes, inside, path) && path[0] == i && path.last() == h && path.len() <= depth + 1
                && (path.len() == depth + 1 || none_inside(inside, hover_order_in(nodes, h as int))),
    decreases depth,
{
    if inside[i] {
        if depth == 0 {
            assert(descent(nodes, inside, seq![i]));
        } else {
            let order = hover_order_in(nodes, i);
            lemma_first_hovered_first(nodes, inside, order, (depth - 1) as nat);
            match first_hovered(nodes, inside, order, (depth - 1) as nat) {
                Some(h) => {
                    let j = choose|j: int| first_inside_at(inside, order, j) && #[trigger] hovered_in(nodes, inside, order[j] as int, (depth - 1) as nat) == Some(h);
                    let c = order[j] as int;
                    law_hovered_deepest(nodes, inside, c, (depth - 1) as nat);
                    let p = choose|p: Seq<int>| #[trigger] descent(nodes, inside, p) && p[0] == c && p.last() == h && p.len() <= depth && (p.len() == depth || none_inside(inside, hover_order_in(nodes, h as int)));
                    let path = seq![i] + p;
                    assert(first_inside_child(nodes, inside, i, c));
                    assert forall|m: int| 0 <= m < path.len() implies inside[#[trigger] path[m]] by {
                        if m > 0 {
                            assert(path[m] == p[m - 1]);
                        }
                    }
                    assert forall|m: int| 0 <= m < path.len() - 1 implies #[trigger] first_inside_child(nodes, inside, path[m], path[m + 1]) by {
                        if m > 0 {
                            let q = m - 1;
                            assert(0 <= q < p.len() - 1);
                            assert(first_inside_child(nodes, inside, p[q], p[q + 1]));
                            assert(path[m] == p[q] && path[m + 1] == p[q + 1]);
                        }
                    }
                    assert(descent(nodes, inside, path));
                },
                None => {
                    assert(descent(nodes, inside, seq![i]));
                },
            }
        }
    }
}

} // verus!
