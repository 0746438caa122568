//! What stays true of the tree while a frame is built: a control pushed in
//! the frame links only to controls pushed in the frame, except where
//! building is still going on. When both layers are back at their roots,
//! closing them leaves no link from a live control to a dead one, so the
//! dead controls can be collected.
use vstd::prelude::*;

use crate::ctrl_state::CtrlState;

use crate::ui::{
    ancestors_in, appended, compacted_seqs, find_child, find_in_chain, lemma_anc_step,
    lemma_relinked_ok, live_in, link_ok, map_link, moved_node, moved_to, popped_nodes, relinked,
    tree_ok, with_child, with_sibling, CtrlNode,
};

verus! {

/// The child of control `i` names it as parent, and its sibling shares its
/// parent; neither is a root.
pub open spec fn node_links_consistent(nodes: Seq<CtrlNode>, i: int) -> bool {
    &&& (nodes[i].child_idx matches Some(c) ==> c >= 2 && nodes[c as int].parent_idx == Some(
        i as usize,
    ))
    &&& (nodes[i].sibling_idx matches Some(s) ==> s >= 2 && nodes[s as int].parent_idx
        == nodes[i].parent_idx)
}

/// Links that hold in every state of the tree: the two roots have no parent
/// and no sibling, no child or sibling link points at a root, a control's
/// child names it as parent, and siblings share their parent.
pub open spec fn links_consistent(nodes: Seq<CtrlNode>) -> bool {
    &&& nodes.len() >= 2
    &&& nodes[0].parent_idx is None && nodes[0].sibling_idx is None
    &&& nodes[1].parent_idx is None && nodes[1].sibling_idx is None
    &&& forall|i: int| 0 <= i < nodes.len() ==> #[trigger] node_links_consistent(nodes, i)
}

/// Control `i` is being built in one of the layers: it is a build parent
/// or above one.
pub open spec fn open_in(
    nodes: Seq<CtrlNode>,
    rank: Seq<nat>,
    bp: Option<usize>,
    obp: Option<usize>,
    i: int,
) -> bool {
    ||| (bp matches Some(p) && ancestors_in(nodes, rank, p as int).contains(i))
    ||| (obp matches Some(q) && ancestors_in(nodes, rank, q as int).contains(i))
}

/// The tree while a frame is built, with build parents `bp` and `obp` and
/// build siblings `bs` and `obs` in the two layers: the roots and the build
/// positions were pushed in `frame`; a control pushed in `frame` has a
/// parent pushed in it, a child pushed in it unless it is a build parent
/// under which nothing was pushed yet, and a sibling pushed in it unless it
/// is being built or is the last control pushed under a build parent.
pub open spec fn build_ok_in(
    nodes: Seq<CtrlNode>,
    rank: Seq<nat>,
    frame: u32,
    bp: Option<usize>,
    bs: Option<usize>,
    obp: Option<usize>,
    obs: Option<usize>,
) -> bool {
    let n = nodes.len() as int;
    &&& links_consistent(nodes)
    &&& live_in(nodes, frame, 0) && live_in(nodes, frame, 1)
    &&& (bp matches Some(p) ==> p < n && live_in(nodes, frame, p as int))
    &&& (obp matches Some(p) ==> p < n && live_in(nodes, frame, p as int))
    &&& (bs matches Some(b) ==> b < n && live_in(nodes, frame, b as int) && nodes[b as int].parent_idx
        == bp)
    &&& (obs matches Some(b) ==> b < n && live_in(nodes, frame, b as int) && nodes[b as int].parent_idx
        == obp)
    &&& forall|i: int| 0 <= i < n ==> #[trigger] node_build_ok(nodes, rank, frame, bp, bs, obp, obs, i)
}

/// A live control `i` has a live parent, a live child unless it is a build
/// parent under which nothing was pushed yet, and a live sibling unless it is
/// being built or is the last control pushed under a build parent.
pub open spec fn node_build_ok(
    nodes: Seq<CtrlNode>,
    rank: Seq<nat>,
    frame: u32,
    bp: Option<usize>,
    bs: Option<usize>,
    obp: Option<usize>,
    obs: Option<usize>,
    i: int,
) -> bool {
    live_in(nodes, frame, i) ==> {
        &&& (nodes[i].parent_idx matches Some(p) ==> live_in(nodes, frame, p as int))
        &&& (nodes[i].child_idx matches Some(c) ==> live_in(nodes, frame, c as int) || (bp == Some(
            i as usize,
        ) && bs is None) || (obp == Some(i as usize) && obs is None))
        &&& (nodes[i].sibling_idx matches Some(s) ==> live_in(nodes, frame, s as int) || open_in(
            nodes,
            rank,
            bp,
            obp,
            i,
        ) || bs == Some(i as usize) || obs == Some(i as usize))
    }
}

/// Ancestors only depend on parent links and heights.
pub proof fn lemma_ancestors_same_parents(a: Seq<CtrlNode>, b: Seq<CtrlNode>, rank: Seq<nat>, i: int)
    requires
        tree_ok(a, rank),
        a.len() == b.len(),
        forall|k: int| 0 <= k < a.len() ==> #[trigger] a[k].parent_idx == b[k].parent_idx,
    ensures
        ancestors_in(a, rank, i) == ancestors_in(b, rank, i),
    decreases rank[i],
{
    if 0 <= i < a.len() {
        assert(link_ok(a[i].parent_idx, a.len() as int));
        if let Some(p) = a[i].parent_idx {
            lemma_ancestors_same_parents(a, b, rank, p as int);
        }
    }
}

/// What the search for a child finds: a control of that id whose parent is
/// the searched one, and its predecessor, whose sibling it is (or, without
/// one, it is the first child).
pub proof fn lemma_find_in_chain(
    nodes: Seq<CtrlNode>,
    rank: Seq<nat>,
    parent: int,
    cur: int,
    prev: Option<usize>,
    id: u32,
    fuel: nat,
)
    requires
        tree_ok(nodes, rank),
        links_consistent(nodes),
        nodes.len() <= usize::MAX,
        0 <= parent < nodes.len(),
        0 <= cur < nodes.len(),
        cur >= 2,
        nodes[cur].parent_idx == Some(parent as usize),
        prev is None ==> nodes[parent].child_idx == Some(cur as usize),
        prev matches Some(pi) ==> pi < nodes.len() && pi >= 2 && nodes[pi as int].sibling_idx == Some(
            cur as usize,
        ) && nodes[pi as int].parent_idx == Some(parent as usize) && nodes[pi as int].id != id,
    ensures
        find_in_chain(nodes, cur, prev, id, fuel) matches Some((f, pr)) ==> {
            &&& f < nodes.len() && f >= 2
            &&& nodes[f as int].parent_idx == Some(parent as usize)
            &&& nodes[f as int].id == id
            &&& (pr is None ==> nodes[parent].child_idx == Some(f))
            &&& (pr matches Some(pi) ==> pi < nodes.len() && pi >= 2 && nodes[pi as int].sibling_idx
                == Some(f) && nodes[pi as int].parent_idx == Some(parent as usize) && nodes[pi as int].id
                != id)
        },
    decreases fuel,
{
    if nodes[cur].id != id {
        if let Some(s) = nodes[cur].sibling_idx {
            if fuel > 0 {
                assert(link_ok(nodes[cur].sibling_idx, nodes.len() as int));
                assert(node_links_consistent(nodes, cur));
                lemma_find_in_chain(nodes, rank, parent, s as int, Some(cur as usize), id, (fuel - 1) as nat);
            }
        }
    }
}

/// `find_child` finds a control of that id under `parent`, linked from its
/// predecessor or from `parent`.
pub proof fn lemma_find_child(nodes: Seq<CtrlNode>, rank: Seq<nat>, parent: int, id: u32)
    requires
        tree_ok(nodes, rank),
        links_consistent(nodes),
        nodes.len() <= usize::MAX,
        0 <= parent < nodes.len(),
    ensures
        find_child(nodes, parent, id) matches Some((f, pr)) ==> {
            &&& f < nodes.len() && f >= 2
            &&& nodes[f as int].parent_idx == Some(parent as usize)
            &&& (pr is None ==> nodes[parent].child_idx == Some(f))
            &&& (pr matches Some(pi) ==> pi < nodes.len() && pi >= 2 && nodes[pi as int].sibling_idx
                == Some(f) && nodes[pi as int].parent_idx == Some(parent as usize) && pi != f)
        },
{
    assert(link_ok(nodes[parent].child_idx, nodes.len() as int));
    assert(node_links_consistent(nodes, parent));
    if let Some(c) = nodes[parent].child_idx {
        lemma_find_in_chain(nodes, rank, parent, c as int, None, id, nodes.len());
    }
}

/// Closing both layers at their roots leaves every link of a live control
/// pointing at a live control.
pub proof fn law_close_roots_links_live(
    nodes: Seq<CtrlNode>,
    rank: Seq<nat>,
    frame: u32,
    bs: Option<usize>,
    obs: Option<usize>,
)
    requires
        tree_ok(nodes, rank),
        nodes.len() <= usize::MAX,
        build_ok_in(nodes, rank, frame, Some(0usize), bs, Some(1usize), obs),
    ensures
        ({
            let closed = popped_nodes(popped_nodes(nodes, 0, bs), 1, obs);
            forall|i: int|
                0 <= i < closed.len() && #[trigger] live_in(closed, frame, i) ==> {
                    &&& (closed[i].parent_idx matches Some(p) ==> live_in(closed, frame, p as int))
                    &&& (closed[i].child_idx matches Some(c) ==> live_in(closed, frame, c as int))
                    &&& (closed[i].sibling_idx matches Some(s) ==> live_in(closed, frame, s as int))
                }
        }),
{
    let n = nodes.len() as int;
    let t = popped_nodes(nodes, 0, bs);
    let closed = popped_nodes(t, 1, obs);
    assert(ancestors_in(nodes, rank, 0) == set![0int]);
    assert(ancestors_in(nodes, rank, 1) == set![1int]);
    assert forall|k: int| 0 <= k < n implies #[trigger] closed[k].last_frame == nodes[k].last_frame
        && closed[k].parent_idx == nodes[k].parent_idx by {}
    assert forall|i: int| 0 <= i < closed.len() && #[trigger] live_in(closed, frame, i) implies {
        &&& (closed[i].parent_idx matches Some(p) ==> live_in(closed, frame, p as int))
        &&& (closed[i].child_idx matches Some(c) ==> live_in(closed, frame, c as int))
        &&& (closed[i].sibling_idx matches Some(s) ==> live_in(closed, frame, s as int))
    } by {
        assert(live_in(nodes, frame, i));
        assert(node_build_ok(nodes, rank, frame, Some(0usize), bs, Some(1usize), obs, i));
        if let Some(b) = bs {
            assert(b != 0 && b != 1);
        }
        if let Some(b) = obs {
            assert(b != 0 && b != 1);
        }
        if bs.is_some() && obs.is_some() {
            assert(bs != obs);
        }
        if open_in(nodes, rank, Some(0usize), Some(1usize), i) {
            assert(i == 0 || i == 1);
        }
        if let Some(p) = nodes[i].parent_idx {
            assert(link_ok(nodes[i].parent_idx, n));
            assert(closed[p as int].last_frame == nodes[p as int].last_frame);
        }
        if let Some(c) = closed[i].child_idx {
            assert(link_ok(nodes[i].child_idx, n));
            assert(closed[c as int].last_frame == nodes[c as int].last_frame);
        }
        if let Some(s) = closed[i].sibling_idx {
            assert(link_ok(nodes[i].sibling_idx, n));
            assert(closed[s as int].last_frame == nodes[s as int].last_frame);
        }
    }
}

/// How relinking a found control `f` (after `prev`, moved after `b` under
/// `parent`) changes the tree: only `f`, `prev`, `b` and `parent` change;
/// `f` is stamped; `b` ends up linked to `f`, and so does `parent` when there
/// is no `b`; the new sibling of `f` or `prev` is a sibling link or the
/// child link that was there before.
proof fn lemma_relinked_shape(
    nodes: Seq<CtrlNode>,
    rank: Seq<nat>,
    parent: int,
    b: Option<usize>,
    f: int,
    prev: Option<usize>,
    frame: u32,
    n: usize,
)
    requires
        tree_ok(nodes, rank),
        0 <= parent < nodes.len(),
        0 <= f < nodes.len(),
        f != parent,
        link_ok(prev, nodes.len() as int),
        link_ok(b, nodes.len() as int),
        prev != Some(f as usize),
        b != Some(f as usize),
        b != Some(parent as usize),
        prev != Some(parent as usize),
    ensures
        ({
            let r = relinked(nodes, parent, b, f, prev, frame, n);
            &&& r.len() == nodes.len()
            &&& forall|k: int|
                0 <= k < nodes.len() ==> {
                    &&& (#[trigger] r[k]).parent_idx == nodes[k].parent_idx
                    &&& r[k].last_frame == (if k == f {
                        frame
                    } else {
                        nodes[k].last_frame
                    })
                    &&& r[k].child_idx == (if b is None && k == parent {
                        Some(f as usize)
                    } else {
                        nodes[k].child_idx
                    })
                    &&& (k != f && prev != Some(k as usize) && b != Some(k as usize) ==> r[k].sibling_idx
                        == nodes[k].sibling_idx)
                }
            &&& (b matches Some(bi) ==> r[bi as int].sibling_idx == Some(f as usize))
            &&& (prev matches Some(pi) ==> b != prev ==> r[pi as int].sibling_idx
                == nodes[f].sibling_idx)
            &&& (r[f].sibling_idx == nodes[f].sibling_idx || (b matches Some(bi) && r[f].sibling_idx
                == nodes[bi as int].sibling_idx) || (b is None && r[f].sibling_idx
                == nodes[parent].child_idx))
        }),
{
    let t1 = nodes.update(f, CtrlNode { last_frame: frame, draw_range_start: n, draw_range_end: n, ..nodes[f] });
    let t2 = match prev {
        Some(pi) => t1.update(pi as int, with_sibling(t1[pi as int], t1[f].sibling_idx)),
        None => t1,
    };
    let r = relinked(nodes, parent, b, f, prev, frame, n);
    match b {
        Some(bi) => {
            let nxt = t2[bi as int].sibling_idx;
            if nxt != Some(f as usize) {
                let t3 = t2.update(bi as int, with_sibling(t2[bi as int], Some(f as usize)));
                assert(r == t3.update(f, with_sibling(t3[f], nxt)));
            } else {
                assert(r == t2);
            }
        },
        None => {
            let pc = t2[parent].child_idx;
            if pc != Some(f as usize) {
                let t3 = t2.update(parent, with_child(t2[parent], Some(f as usize)));
                assert(r == t3.update(f, with_sibling(t3[f], pc)));
            } else {
                assert(r == t2);
            }
        },
    }
}

/// While a frame is built, the sets of controls being built only grow when
/// a child of the build parent becomes the build parent.
proof fn lemma_open_grows(
    nodes: Seq<CtrlNode>,
    r: Seq<CtrlNode>,
    rank: Seq<nat>,
    p: usize,
    f: usize,
    obp: Option<usize>,
    i: int,
)
    requires
        tree_ok(nodes, rank),
        tree_ok(r, rank),
        r.len() == nodes.len(),
        forall|k: int| 0 <= k < nodes.len() ==> #[trigger] r[k].parent_idx == nodes[k].parent_idx,
        f < nodes.len(),
        r[f as int].parent_idx == Some(p),
        open_in(nodes, rank, Some(p), obp, i),
    ensures
        open_in(r, rank, Some(f), obp, i),
{
    lemma_ancestors_same_parents(nodes, r, rank, p as int);
    if let Some(q) = obp {
        lemma_ancestors_same_parents(nodes, r, rank, q as int);
    }
    lemma_anc_step(r, rank, f as int);
}

/// Pushing a control found among the children of the build parent keeps
/// the tree as a frame being built needs it, with the found control as the
/// new build parent and nothing pushed under it yet.
pub proof fn law_push_found_build_ok(
    nodes: Seq<CtrlNode>,
    rank: Seq<nat>,
    frame: u32,
    p: usize,
    bs: Option<usize>,
    obp: Option<usize>,
    obs: Option<usize>,
    id: u32,
    n: usize,
)
    requires
        tree_ok(nodes, rank),
        nodes.len() <= usize::MAX,
        p < nodes.len(),
        build_ok_in(nodes, rank, frame, Some(p), bs, obp, obs),
        find_child(nodes, p as int, id) is Some,
        nodes[(find_child(nodes, p as int, id)->0).0 as int].last_frame != frame,
    ensures
        ({
            let (f, prev) = find_child(nodes, p as int, id)->0;
            build_ok_in(relinked(nodes, p as int, bs, f as int, prev, frame, n), rank, frame, Some(f), None, obp, obs)
        }),
{
    let len = nodes.len() as int;
    let (f, prev) = find_child(nodes, p as int, id)->0;
    lemma_find_child(nodes, rank, p as int, id);
    let fi = f as int;
    assert(rank[p as int] < rank[fi]) by {
        assert(link_ok(nodes[fi].parent_idx, len));
    }
    if let Some(pi) = prev {
        assert(rank[p as int] < rank[pi as int]) by {
            assert(link_ok(nodes[pi as int].parent_idx, len));
        }
    }
    if let Some(bi) = bs {
        assert(rank[p as int] < rank[bi as int]) by {
            assert(link_ok(nodes[bi as int].parent_idx, len));
        }
        assert(live_in(nodes, frame, bi as int));
    }
    lemma_relinked_ok(nodes, rank, p as int, bs, fi, prev, frame, n);
    lemma_relinked_shape(nodes, rank, p as int, bs, fi, prev, frame, n);
    let r = relinked(nodes, p as int, bs, fi, prev, frame, n);
    assert(node_links_consistent(nodes, fi));
    assert(node_links_consistent(nodes, p as int));
    if let Some(bi) = bs {
        assert(node_links_consistent(nodes, bi as int));
    }
    // The links stay consistent.
    assert forall|k: int| 0 <= k < len implies #[trigger] node_links_consistent(r, k) by {
        assert(node_links_consistent(nodes, k));
        assert(link_ok(nodes[k].child_idx, len));
        assert(link_ok(nodes[k].sibling_idx, len));
        if let Some(c) = r[k].child_idx {
            assert(r[c as int].parent_idx == nodes[c as int].parent_idx);
        }
        if let Some(s) = r[k].sibling_idx {
            assert(link_ok(nodes[fi].sibling_idx, len));
            if let Some(bi) = bs {
                assert(link_ok(nodes[bi as int].sibling_idx, len));
            }
            assert(link_ok(nodes[p as int].child_idx, len));
            assert(r[s as int].parent_idx == nodes[s as int].parent_idx);
        }
    }
    assert(links_consistent(r));
    // Every live control keeps its links right.
    assert forall|k: int| 0 <= k < len implies #[trigger] node_build_ok(r, rank, frame, Some(f), None, obp, obs, k) by {
        assert(node_build_ok(nodes, rank, frame, Some(p), bs, obp, obs, k));
        if live_in(r, frame, k) {
            assert(link_ok(nodes[k].parent_idx, len));
            if let Some(q) = r[k].parent_idx {
                assert(r[q as int].last_frame == nodes[q as int].last_frame || q as int == fi);
            }
            if let Some(c) = r[k].child_idx {
                assert(link_ok(nodes[k].child_idx, len));
            }
            if let Some(sb) = r[k].sibling_idx {
                if k != fi && bs != Some(k as usize) {
                    if live_in(nodes, frame, k) && open_in(nodes, rank, Some(p), obp, k) {
                        lemma_open_grows(nodes, r, rank, p, f, obp, k);
                    }
                    assert(link_ok(nodes[k].sibling_idx, len));
                }
                if k == fi {
                    lemma_anc_step(r, rank, fi);
                }
            }
        }
    }
}

/// Adding a control at the end leaves the ancestors of the others as they
/// were.
proof fn lemma_ancestors_extended(a: Seq<CtrlNode>, b: Seq<CtrlNode>, rank: Seq<nat>, rank_b: Seq<nat>, i: int)
    requires
        tree_ok(a, rank),
        b.len() == a.len() + 1,
        rank_b.len() == b.len(),
        forall|k: int| 0 <= k < a.len() ==> #[trigger] b[k].parent_idx == a[k].parent_idx && rank_b[k] == rank[k],
        0 <= i < a.len(),
    ensures
        ancestors_in(b, rank_b, i) == ancestors_in(a, rank, i),
    decreases rank[i],
{
    assert(link_ok(a[i].parent_idx, a.len() as int));
    assert(b[i].parent_idx == a[i].parent_idx && rank_b[i] == rank[i]);
    if let Some(p) = a[i].parent_idx {
        assert(b[p as int].parent_idx == a[p as int].parent_idx && rank_b[p as int] == rank[p as int]);
        lemma_ancestors_extended(a, b, rank, rank_b, p as int);
    }
}

/// Pushing a new control under the build parent keeps the tree as a frame
/// being built needs it, with the new control, last in the tree, as the new
/// build parent and nothing pushed under it yet.
pub proof fn law_push_new_build_ok(
    nodes: Seq<CtrlNode>,
    rank: Seq<nat>,
    frame: u32,
    p: usize,
    bs: Option<usize>,
    obp: Option<usize>,
    obs: Option<usize>,
    id: u32,
    n: usize,
)
    requires
        tree_ok(nodes, rank),
        nodes.len() < usize::MAX,
        p < nodes.len(),
        build_ok_in(nodes, rank, frame, Some(p), bs, obp, obs),
    ensures
        build_ok_in(
            appended(nodes, p as int, bs, id, frame, n),
            rank.push(rank[p as int] + 1),
            frame,
            Some(nodes.len() as usize),
            None,
            obp,
            obs,
        ),
        tree_ok(appended(nodes, p as int, bs, id, frame, n), rank.push(rank[p as int] + 1)),
{
    let len = nodes.len() as int;
    let r = appended(nodes, p as int, bs, id, frame, n);
    let rk = rank.push(rank[p as int] + 1);
    let l = len as usize;
    if let Some(bi) = bs {
        assert(node_links_consistent(nodes, bi as int));
        assert(link_ok(nodes[bi as int].sibling_idx, len));
        assert(link_ok(nodes[bi as int].parent_idx, len));
    }
    assert(node_links_consistent(nodes, p as int));
    assert(link_ok(nodes[p as int].child_idx, len));
    assert(r.len() == len + 1);
    assert(r[len].parent_idx == Some(p));
    assert forall|k: int| 0 <= k < len implies #[trigger] r[k].parent_idx == nodes[k].parent_idx && rk[k] == rank[k]
        && r[k].last_frame == nodes[k].last_frame by {}
    assert(tree_ok(r, rk)) by {
        assert forall|k: int| 0 <= k < len + 1 implies {
            &&& link_ok((#[trigger] r[k]).parent_idx, len + 1)
            &&& link_ok(r[k].child_idx, len + 1)
            &&& link_ok(r[k].sibling_idx, len + 1)
            &&& (r[k].parent_idx matches Some(q) ==> rk[q as int] < rk[k])
        } by {
            if k < len {
                assert(link_ok(nodes[k].parent_idx, len));
                assert(link_ok(nodes[k].child_idx, len));
                assert(link_ok(nodes[k].sibling_idx, len));
            }
        }
    }
    assert forall|k: int| 0 <= k < len + 1 implies #[trigger] node_links_consistent(r, k) by {
        if k < len {
            assert(node_links_consistent(nodes, k));
            assert(link_ok(nodes[k].child_idx, len));
            assert(link_ok(nodes[k].sibling_idx, len));
        }
    }
    assert(links_consistent(r));
    assert forall|k: int| 0 <= k < len + 1 implies #[trigger] node_build_ok(r, rk, frame, Some(l), None, obp, obs, k) by {
        if k < len {
            assert(node_build_ok(nodes, rank, frame, Some(p), bs, obp, obs, k));
            assert(link_ok(nodes[k].parent_idx, len));
            assert(link_ok(nodes[k].child_idx, len));
            assert(link_ok(nodes[k].sibling_idx, len));
            if live_in(r, frame, k) && r[k].sibling_idx is Some && open_in(nodes, rank, Some(p), obp, k) {
                lemma_ancestors_extended(nodes, r, rank, rk, p as int);
                if let Some(q) = obp {
                    lemma_ancestors_extended(nodes, r, rank, rk, q as int);
                }
                lemma_anc_step(r, rk, len);
            }
        } else {
            lemma_anc_step(r, rk, len);
        }
    }
    if let Some(ob) = obs {
        assert(r[ob as int].parent_idx == nodes[ob as int].parent_idx);
    }
}

/// Closing the build parent keeps the tree as a frame being built needs it:
/// its parent becomes the build parent, and it becomes the last control
/// pushed there.
pub proof fn law_pop_build_ok(
    nodes: Seq<CtrlNode>,
    rank: Seq<nat>,
    frame: u32,
    p: usize,
    bs: Option<usize>,
    obp: Option<usize>,
    obs: Option<usize>,
)
    requires
        tree_ok(nodes, rank),
        nodes.len() <= usize::MAX,
        p < nodes.len(),
        build_ok_in(nodes, rank, frame, Some(p), bs, obp, obs),
    ensures
        build_ok_in(popped_nodes(nodes, p as int, bs), rank, frame, nodes[p as int].parent_idx, Some(p), obp, obs),
        tree_ok(popped_nodes(nodes, p as int, bs), rank),
{
    let len = nodes.len() as int;
    let r = popped_nodes(nodes, p as int, bs);
    let pp = nodes[p as int].parent_idx;
    assert(link_ok(nodes[p as int].parent_idx, len));
    assert(node_build_ok(nodes, rank, frame, Some(p), bs, obp, obs, p as int));
    if let Some(bi) = bs {
        assert(link_ok(nodes[bi as int].parent_idx, len));
        assert(rank[p as int] < rank[bi as int]);
    }
    if let Some(q) = pp {
        assert(rank[q as int] < rank[p as int]);
    }
    assert forall|k: int| 0 <= k < len implies #[trigger] r[k].parent_idx == nodes[k].parent_idx
        && r[k].last_frame == nodes[k].last_frame by {}
    assert(tree_ok(r, rank)) by {
        assert forall|k: int| 0 <= k < len implies {
            &&& link_ok((#[trigger] r[k]).parent_idx, len)
            &&& link_ok(r[k].child_idx, len)
            &&& link_ok(r[k].sibling_idx, len)
            &&& (r[k].parent_idx matches Some(q) ==> rank[q as int] < rank[k])
        } by {
            assert(link_ok(nodes[k].parent_idx, len));
        }
    }
    lemma_ancestors_same_parents(nodes, r, rank, p as int);
    if let Some(q) = pp {
        lemma_ancestors_same_parents(nodes, r, rank, q as int);
    }
    if let Some(q) = obp {
        lemma_ancestors_same_parents(nodes, r, rank, q as int);
    }
    lemma_anc_step(nodes, rank, p as int);
    assert forall|k: int| 0 <= k < len implies #[trigger] node_links_consistent(r, k) by {
        assert(node_links_consistent(nodes, k));
        assert(link_ok(nodes[k].child_idx, len));
        assert(link_ok(nodes[k].sibling_idx, len));
    }
    assert(links_consistent(r));
    assert forall|k: int| 0 <= k < len implies #[trigger] node_build_ok(r, rank, frame, pp, Some(p), obp, obs, k) by {
        assert(node_build_ok(nodes, rank, frame, Some(p), bs, obp, obs, k));
        assert(link_ok(nodes[k].parent_idx, len));
        assert(link_ok(nodes[k].child_idx, len));
        assert(link_ok(nodes[k].sibling_idx, len));
    }
    if let Some(ob) = obs {
        assert(r[ob as int].parent_idx == nodes[ob as int].parent_idx);
    }
}

/// The two layers play the same part: swapping them keeps a tree being
/// built as it needs to be.
pub proof fn law_swap_layers_build_ok(
    nodes: Seq<CtrlNode>,
    rank: Seq<nat>,
    frame: u32,
    bp: Option<usize>,
    bs: Option<usize>,
    obp: Option<usize>,
    obs: Option<usize>,
)
    requires
        build_ok_in(nodes, rank, frame, bp, bs, obp, obs),
    ensures
        build_ok_in(nodes, rank, frame, obp, obs, bp, bs),
{
    assert forall|k: int| 0 <= k < nodes.len() implies #[trigger] node_build_ok(nodes, rank, frame, obp, obs, bp, bs, k) by {
        assert(node_build_ok(nodes, rank, frame, bp, bs, obp, obs, k));
    }
}

/// The tree at the start of a frame: only the roots are pushed in the new
/// frame, building starts at them, and the links are as every state has
/// them.
pub proof fn law_begin_frame_build_ok(nodes: Seq<CtrlNode>, rank: Seq<nat>, last: u32, frame: u32)
    requires
        tree_ok(nodes, rank),
        links_consistent(nodes),
        forall|k: int| 0 <= k < nodes.len() ==> #[trigger] nodes[k].last_frame == last,
        frame != last,
    ensures
        build_ok_in(
            nodes.update(
                0,
                CtrlNode { last_frame: frame, last_frame_in_active_path: frame, ..nodes[0] },
            ).update(
                1,
                CtrlNode { last_frame: frame, last_frame_in_active_path: frame, ..nodes[1] },
            ),
            rank,
            frame,
            Some(0usize),
            None,
            Some(1usize),
            None,
        ),
{
    let r = nodes.update(
        0,
        CtrlNode { last_frame: frame, last_frame_in_active_path: frame, ..nodes[0] },
    ).update(1, CtrlNode { last_frame: frame, last_frame_in_active_path: frame, ..nodes[1] });
    assert forall|k: int| 0 <= k < nodes.len() implies #[trigger] node_links_consistent(r, k) by {
        assert(node_links_consistent(nodes, k));
        assert(link_ok(nodes[k].child_idx, nodes.len() as int));
        assert(link_ok(nodes[k].sibling_idx, nodes.len() as int));
    }
    assert forall|k: int| 0 <= k < nodes.len() implies #[trigger] node_build_ok(r, rank, frame, Some(0usize), None, Some(1usize), None, k) by {
        assert(nodes[k].last_frame == last);
    }
}

/// Removing the dead controls of a tree whose live controls only link to
/// live controls keeps the links as every state has them, and leaves only
/// controls of the frame.
pub proof fn law_compacted_links_consistent<P>(
    old_nodes: Seq<CtrlNode>,
    old_states: Seq<CtrlState>,
    old_payloads: Seq<P>,
    frame: u32,
    new_nodes: Seq<CtrlNode>,
    new_states: Seq<CtrlState>,
    new_payloads: Seq<P>,
    pos: Seq<int>,
)
    requires
        links_consistent(old_nodes),
        old_nodes.len() <= usize::MAX,
        new_nodes.len() <= usize::MAX,
        live_in(old_nodes, frame, 0),
        live_in(old_nodes, frame, 1),
        compacted_seqs(old_nodes, old_states, old_payloads, frame, new_nodes, new_states, new_payloads, pos),
        forall|i: int|
            0 <= i < old_nodes.len() && #[trigger] live_in(old_nodes, frame, i) ==> {
                &&& (old_nodes[i].parent_idx matches Some(p) ==> 0 <= p < old_nodes.len() && live_in(old_nodes, frame, p as int))
                &&& (old_nodes[i].child_idx matches Some(c) ==> 0 <= c < old_nodes.len() && live_in(old_nodes, frame, c as int))
                &&& (old_nodes[i].sibling_idx matches Some(s) ==> 0 <= s < old_nodes.len() && live_in(old_nodes, frame, s as int))
            },
    ensures
        links_consistent(new_nodes),
        forall|k: int| 0 <= k < new_nodes.len() ==> #[trigger] live_in(new_nodes, frame, k),
{
    let n = old_nodes.len() as int;
    assert(live_in(old_nodes, frame, 0));
    assert(live_in(old_nodes, frame, 1));
    assert forall|k: int| 0 <= k < new_nodes.len() implies #[trigger] live_in(new_nodes, frame, k)
        && node_links_consistent(new_nodes, k) by {
        assert(moved_to(old_nodes, frame, pos, k));
        let i = choose|i: int| #![trigger pos[i]] 0 <= i < n && live_in(old_nodes, frame, i) && pos[i] == k;
        assert(new_nodes[k] == moved_node(old_nodes[i], pos));
        assert(node_links_consistent(old_nodes, i));
        assert(live_in(new_nodes, frame, k));
        if let Some(c) = old_nodes[i].child_idx {
            assert(live_in(old_nodes, frame, c as int));
            assert(pos[c as int] != pos[0] && pos[c as int] != pos[1]);
            assert(0 <= pos[c as int] < new_nodes.len());
            assert(new_nodes[pos[c as int]] == moved_node(old_nodes[c as int], pos));
            assert(old_nodes[c as int].parent_idx == Some(i as usize));
            assert(new_nodes[k].child_idx == Some(pos[c as int] as usize));
            assert(new_nodes[pos[c as int]].parent_idx == Some(k as usize));
        }
        if let Some(s) = old_nodes[i].sibling_idx {
            assert(live_in(old_nodes, frame, s as int));
            assert(pos[s as int] != pos[0] && pos[s as int] != pos[1]);
            assert(0 <= pos[s as int] < new_nodes.len());
            assert(new_nodes[pos[s as int]] == moved_node(old_nodes[s as int], pos));
            if let Some(q) = old_nodes[i].parent_idx {
                assert(live_in(old_nodes, frame, q as int));
            }
            assert(new_nodes[pos[s as int]].parent_idx == new_nodes[k].parent_idx);
        }
        assert(node_links_consistent(new_nodes, k));
    }
    assert forall|k: int| 0 <= k < new_nodes.len() implies #[trigger] node_links_consistent(new_nodes, k) by {
        assert(live_in(new_nodes, frame, k));
    }
    assert(new_nodes[0] == moved_node(old_nodes[0], pos));
    assert(new_nodes[1] == moved_node(old_nodes[1], pos));
}

/// Whether a tree is built as it should be depends only on its links and
/// frame stamps: changing anything else of a control keeps it.
pub proof fn lemma_same_skeleton_build_ok(
    a: Seq<CtrlNode>,
    b: Seq<CtrlNode>,
    rank: Seq<nat>,
    frame: u32,
    bp: Option<usize>,
    bs: Option<usize>,
    obp: Option<usize>,
    obs: Option<usize>,
)
    requires
        tree_ok(a, rank),
        a.len() == b.len(),
        forall|k: int|
            0 <= k < a.len() ==> {
                &&& (#[trigger] b[k]).parent_idx == a[k].parent_idx
                &&& b[k].child_idx == a[k].child_idx
                &&& b[k].sibling_idx == a[k].sibling_idx
                &&& b[k].last_frame == a[k].last_frame
            },
        build_ok_in(a, rank, frame, bp, bs, obp, obs),
    ensures
        build_ok_in(b, rank, frame, bp, bs, obp, obs),
{
    let len = a.len() as int;
    if let Some(p) = bp {
        lemma_ancestors_same_parents(a, b, rank, p as int);
    }
    if let Some(q) = obp {
        lemma_ancestors_same_parents(a, b, rank, q as int);
    }
    assert forall|k: int| 0 <= k < len implies #[trigger] node_links_consistent(b, k) by {
        assert(node_links_consistent(a, k));
        assert(link_ok(a[k].child_idx, len));
        assert(link_ok(a[k].sibling_idx, len));
    }
    assert forall|k: int| 0 <= k < len implies #[trigger] node_build_ok(b, rank, frame, bp, bs, obp, obs, k) by {
        assert(node_build_ok(a, rank, frame, bp, bs, obp, obs, k));
        assert(link_ok(a[k].parent_idx, len));
        assert(link_ok(a[k].child_idx, len));
        assert(link_ok(a[k].sibling_idx, len));
    }
    if let Some(x) = bs {
        assert(b[x as int].parent_idx == a[x as int].parent_idx);
    }
    if let Some(x) = obs {
        assert(b[x as int].parent_idx == a[x as int].parent_idx);
    }
}

/// One building step, as the `Ui` methods of the same names take it:
/// pushing the control `id` (with `n` draw primitives so far), popping the
/// control being built, or switching to and from the overlay layer.
pub enum BuildOp {
    Push(u32, usize),
    Pop,
    BeginOverlay,
    EndOverlay,
}

/// What building works on: the tree with its ranks and state bytes, the
/// build parent and sibling of the layer being built and of the other
/// layer, and whether the overlay is being built.
pub struct BuildState {
    pub nodes: Seq<CtrlNode>,
    pub rank: Seq<nat>,
    pub states: Seq<CtrlState>,
    pub bp: Option<usize>,
    pub bs: Option<usize>,
    pub obp: Option<usize>,
    pub obs: Option<usize>,
    pub overlay: bool,
}

/// The control `push_ctrl(id)` builds under `p` and the tree after it:
/// the child found by its id, moved after `bs`, or a new control, which
/// gets the state `fresh`.
pub open spec fn pushed(s: BuildState, id: u32, frame: u32, n: usize, fresh: CtrlState) -> (BuildState, usize) {
    let p = s.bp->0;
    match find_child(s.nodes, p as int, id) {
        Some((f, prev)) => (
            BuildState { nodes: relinked(s.nodes, p as int, s.bs, f as int, prev, frame, n), bp: Some(f), bs: None, ..s },
            f,
        ),
        None => (
            BuildState {
                nodes: appended(s.nodes, p as int, s.bs, id, frame, n),
                rank: s.rank.push(s.rank[p as int] + 1),
                states: s.states.push(fresh),
                bp: Some(s.nodes.len() as usize),
                bs: None,
                ..s
            },
            s.nodes.len() as usize,
        ),
    }
}

/// The state after one building step, as `push_ctrl`, `pop_ctrl`,
/// `begin_overlay` and `end_overlay` state it.
pub open spec fn build_step(s: BuildState, op: BuildOp, frame: u32, fresh: CtrlState) -> BuildState {
    match op {
        BuildOp::Push(id, n) => pushed(s, id, frame, n, fresh).0,
        BuildOp::Pop => BuildState {
            nodes: popped_nodes(s.nodes, s.bp->0 as int, s.bs),
            bp: s.nodes[s.bp->0 as int].parent_idx,
            bs: Some(s.bp->0),
            ..s
        },
        BuildOp::BeginOverlay | BuildOp::EndOverlay => BuildState {
            bp: s.obp,
            bs: s.obs,
            obp: s.bp,
            obs: s.bs,
            overlay: op is BeginOverlay,
            ..s
        },
    }
}

/// The step can be taken: there is a control being built, a push does not
/// take a control already pushed in the frame and leaves room for one more,
/// and the overlay is begun and ended in turn.
pub open spec fn step_ok(s: BuildState, op: BuildOp, frame: u32) -> bool {
    match op {
        BuildOp::Push(id, n) => {
            &&& s.bp matches Some(p) && p < s.nodes.len()
            &&& s.nodes.len() < usize::MAX
            &&& find_child(s.nodes, s.bp->0 as int, id) matches Some((f, _)) ==> s.nodes[f as int].last_frame
                != frame
        },
        BuildOp::Pop => s.bp matches Some(p) && p < s.nodes.len(),
        BuildOp::BeginOverlay => !s.overlay,
        BuildOp::EndOverlay => s.overlay,
    }
}

/// The state after the steps `ops`, new controls getting the state `fresh`.
pub open spec fn build_run(s: BuildState, ops: Seq<BuildOp>, frame: u32, fresh: CtrlState) -> BuildState
    decreases ops.len(),
{
    if ops.len() == 0 {
        s
    } else {
        build_run(build_step(s, ops[0], frame, fresh), ops.drop_first(), frame, fresh)
    }
}

/// Every one of the steps `ops` can be taken in turn.
pub open spec fn run_ok(s: BuildState, ops: Seq<BuildOp>, frame: u32, fresh: CtrlState) -> bool
    decreases ops.len(),
{
    ops.len() == 0 || (step_ok(s, ops[0], frame) && run_ok(build_step(s, ops[0], frame, fresh), ops.drop_first(), frame, fresh))
}

/// Pushes less pops among `ops`.
pub open spec fn depth(ops: Seq<BuildOp>) -> int
    decreases ops.len(),
{
    if ops.len() == 0 {
        0
    } else {
        (match ops[0] {
            BuildOp::Push(_, _) => 1int,
            BuildOp::Pop => -1int,
            _ => 0int,
        }) + depth(ops.drop_first())
    }
}

/// `ops` are pushes and pops, every pop closes an earlier push, and every
/// push is closed.
pub open spec fn balanced(ops: Seq<BuildOp>) -> bool {
    &&& forall|i: int| 0 <= i < ops.len() ==> (#[trigger] ops[i] is Push || ops[i] is Pop)
    &&& forall|k: int| 0 <= k <= ops.len() ==> #[trigger] depth(ops.take(k)) >= 0
    &&& depth(ops) == 0
}

/// The control `k` parents above `x`.
pub open spec fn climb(nodes: Seq<CtrlNode>, x: Option<usize>, k: nat) -> Option<usize>
    decreases k,
{
    if k == 0 {
        x
    } else {
        match x {
            Some(i) => climb(nodes, nodes[i as int].parent_idx, (k - 1) as nat),
            None => None,
        }
    }
}

/// The invariant that building keeps, for the layer being built.
pub open spec fn build_inv(s: BuildState, frame: u32) -> bool {
    &&& tree_ok(s.nodes, s.rank)
    &&& s.nodes.len() <= usize::MAX
    &&& s.states.len() == s.nodes.len()
    &&& build_ok_in(s.nodes, s.rank, frame, s.bp, s.bs, s.obp, s.obs)
}

proof fn lemma_climb_same(a: Seq<CtrlNode>, b: Seq<CtrlNode>, rank: Seq<nat>, x: Option<usize>, k: nat)
    requires
        tree_ok(a, rank),
        x matches Some(i) ==> i < a.len(),
        a.len() <= b.len(),
        forall|i: int| 0 <= i < a.len() ==> #[trigger] b[i].parent_idx == a[i].parent_idx,
    ensures
        climb(b, x, k) == climb(a, x, k),
    decreases k,
{
    if k > 0 {
        if let Some(i) = x {
            assert(link_ok(a[i as int].parent_idx, a.len() as int));
            assert(b[i as int].parent_idx == a[i as int].parent_idx);
            lemma_climb_same(a, b, rank, a[i as int].parent_idx, (k - 1) as nat);
        }
    }
}

/// One push or pop keeps the invariant, keeps every control's parent and
/// state and the other layer's position, and only adds controls; the
/// control pushed is a child of the build parent.
proof fn lemma_step(s: BuildState, op: BuildOp, frame: u32, fresh: CtrlState)
    requires
        build_inv(s, frame),
        op is Push || op is Pop,
        step_ok(s, op, frame),
    ensures
        ({
            let t = build_step(s, op, frame, fresh);
            &&& build_inv(t, frame)
            &&& t.nodes.len() >= s.nodes.len()
            &&& forall|i: int| 0 <= i < s.nodes.len() ==> #[trigger] t.nodes[i].parent_idx == s.nodes[i].parent_idx
            &&& t.states.subrange(0, s.states.len() as int) == s.states
            &&& t.obp == s.obp && t.obs == s.obs && t.overlay == s.overlay
            &&& (op is Push ==> (t.bp matches Some(c) && c < t.nodes.len() && t.nodes[c as int].parent_idx == s.bp))
        }),
{
    let p = s.bp->0;
    let t = build_step(s, op, frame, fresh);
    assert(s.states.subrange(0, s.states.len() as int) =~= s.states);
    match op {
        BuildOp::Push(id, n) => {
            match find_child(s.nodes, p as int, id) {
                Some((f, prev)) => {
                    lemma_find_child(s.nodes, s.rank, p as int, id);
                    law_push_found_build_ok(s.nodes, s.rank, frame, p, s.bs, s.obp, s.obs, id, n);
                    assert(link_ok(s.bs, s.nodes.len() as int));
                    lemma_relinked_ok(s.nodes, s.rank, p as int, s.bs, f as int, prev, frame, n);
                },
                None => {
                    law_push_new_build_ok(s.nodes, s.rank, frame, p, s.bs, s.obp, s.obs, id, n);
                    let a = appended(s.nodes, p as int, s.bs, id, frame, n);
                    assert forall|i: int| 0 <= i < s.nodes.len() implies #[trigger] a[i].parent_idx == s.nodes[i].parent_idx by {}
                    assert(s.states.push(fresh).subrange(0, s.states.len() as int) =~= s.states);
                },
            }
        },
        _ => {
            law_pop_build_ok(s.nodes, s.rank, frame, p, s.bs, s.obp, s.obs);
            let q = popped_nodes(s.nodes, p as int, s.bs);
            assert forall|i: int| 0 <= i < s.nodes.len() implies #[trigger] q[i].parent_idx == s.nodes[i].parent_idx by {}
        },
    }
}

proof fn lemma_depth_take_first(ops: Seq<BuildOp>, k: int)
    requires
        0 <= k < ops.len(),
    ensures
        depth(ops.take(k + 1)) == (match ops[0] {
            BuildOp::Push(_, _) => 1int,
            BuildOp::Pop => -1int,
            _ => 0int,
        }) + depth(ops.drop_first().take(k)),
{
    assert(ops.take(k + 1).drop_first() =~= ops.drop_first().take(k));
}

/// Running pushes and pops whose depth never falls below `-m` keeps the
/// invariant, every control's parent and state, and the other layer's
/// position; afterwards, `depth + m` parents above the build parent is
/// what `m` parents above it was at the start.
proof fn lemma_run(s: BuildState, ops: Seq<BuildOp>, frame: u32, fresh: CtrlState, m: nat)
    requires
        build_inv(s, frame),
        run_ok(s, ops, frame, fresh),
        forall|i: int| 0 <= i < ops.len() ==> (#[trigger] ops[i] is Push || ops[i] is Pop),
        forall|k: int| 0 <= k <= ops.len() ==> #[trigger] depth(ops.take(k)) + m >= 0,
    ensures
        ({
            let t = build_run(s, ops, frame, fresh);
            &&& build_inv(t, frame)
            &&& t.nodes.len() >= s.nodes.len()
            &&& forall|i: int| 0 <= i < s.nodes.len() ==> #[trigger] t.nodes[i].parent_idx == s.nodes[i].parent_idx
            &&& t.states.subrange(0, s.states.len() as int) == s.states
            &&& t.obp == s.obp && t.obs == s.obs && t.overlay == s.overlay
            &&& depth(ops) + m >= 0
            &&& climb(t.nodes, t.bp, (depth(ops) + m) as nat) == climb(s.nodes, s.bp, m)
        }),
    decreases ops.len(),
{
    if ops.len() == 0 {
        assert(s.states.subrange(0, s.states.len() as int) =~= s.states);
    } else {
        let op = ops[0];
        let rest = ops.drop_first();
        let s1 = build_step(s, op, frame, fresh);
        assert(op is Push || op is Pop);
        lemma_step(s, op, frame, fresh);
        assert(depth(ops) == depth(ops.take(ops.len() as int))) by {
            assert(ops.take(ops.len() as int) =~= ops);
        }
        let d: int = if op is Push { 1 } else { -1 };
        assert(depth(ops.take(1)) + m >= 0);
        lemma_depth_take_first(ops, 0);
        assert(depth(rest.take(0)) == 0) by {
            assert(rest.take(0) =~= Seq::<BuildOp>::empty());
        }
        let m1: nat = (m + d) as nat;
        assert forall|k: int| 0 <= k <= rest.len() implies #[trigger] depth(rest.take(k)) + m1 >= 0 by {
            lemma_depth_take_first(ops, k);
            assert(depth(ops.take(k + 1)) + m >= 0);
        }
        assert forall|i: int| 0 <= i < rest.len() implies (#[trigger] rest[i] is Push || rest[i] is Pop) by {
            assert(rest[i] == ops[i + 1]);
        }
        lemma_run(s1, rest, frame, fresh, m1);
        let t = build_run(s1, rest, frame, fresh);
        assert(t == build_run(s, ops, frame, fresh));
        assert(depth(ops) == d + depth(rest));
        assert(t.states.subrange(0, s.states.len() as int) =~= s.states) by {
            assert(t.states.subrange(0, s1.states.len() as int) == s1.states);
        }
        // `m` parents above the start is `m1` parents above the first step.
        if op is Push {
            assert(climb(s1.nodes, s1.bp, m1) == climb(s1.nodes, s.bp, m));
            lemma_climb_same(s.nodes, s1.nodes, s.rank, s.bp, m);
        } else {
            assert(m >= 1);
            let p = s.bp->0;
            assert(climb(s.nodes, s.bp, m) == climb(s.nodes, s.nodes[p as int].parent_idx, m1));
            assert(link_ok(s.nodes[p as int].parent_idx, s.nodes.len() as int));
            lemma_climb_same(s.nodes, s1.nodes, s.rank, s.nodes[p as int].parent_idx, m1);
        }
    }
}

/// Pushing a control, then building under it with balanced pushes and
/// pops, then popping it, brings building back to where it was: the same
/// build parent, now with the pushed control as the last one built under
/// it; the other layer's position, every earlier control's parent and
/// state bytes are as they were.
pub proof fn law_push_pop_restores(s: BuildState, id: u32, n: usize, inner: Seq<BuildOp>, frame: u32, fresh: CtrlState)
    requires
        build_inv(s, frame),
        step_ok(s, BuildOp::Push(id, n), frame),
        balanced(inner),
        run_ok(build_step(s, BuildOp::Push(id, n), frame, fresh), inner, frame, fresh),
    ensures
        ({
            let s1 = build_step(s, BuildOp::Push(id, n), frame, fresh);
            let s2 = build_run(s1, inner, frame, fresh);
            &&& step_ok(s2, BuildOp::Pop, frame)
            &&& s2.bp == s1.bp
            &&& ({
                let s3 = build_step(s2, BuildOp::Pop, frame, fresh);
                &&& s3.bp == s.bp
                &&& s3.bs == s1.bp
                &&& s3.obp == s.obp && s3.obs == s.obs && s3.overlay == s.overlay
                &&& s3.nodes.len() >= s.nodes.len()
                &&& s3.states.subrange(0, s.states.len() as int) == s.states
                &&& forall|i: int| 0 <= i < s.nodes.len() ==> #[trigger] s3.nodes[i].parent_idx == s.nodes[i].parent_idx
            })
        }),
{
    let s1 = build_step(s, BuildOp::Push(id, n), frame, fresh);
    lemma_step(s, BuildOp::Push(id, n), frame, fresh);
    assert forall|k: int| 0 <= k <= inner.len() implies #[trigger] depth(inner.take(k)) + 0nat >= 0 by {
        assert(depth(inner.take(k)) >= 0);
    }
    lemma_run(s1, inner, frame, fresh, 0);
    let s2 = build_run(s1, inner, frame, fresh);
    let c = s1.bp->0;
    assert(s2.bp == Some(c));
    assert(step_ok(s2, BuildOp::Pop, frame));
    lemma_step(s2, BuildOp::Pop, frame, fresh);
    let s3 = build_step(s2, BuildOp::Pop, frame, fresh);
    assert(s2.nodes[c as int].parent_idx == s1.nodes[c as int].parent_idx);
    assert(s3.states.subrange(0, s.states.len() as int) =~= s.states) by {
        assert(s3.states.subrange(0, s2.states.len() as int) == s2.states);
        assert(s2.states.subrange(0, s1.states.len() as int) == s1.states);
        assert(s1.states.subrange(0, s.states.len() as int) == s.states);
    }
}

/// Beginning the overlay, building in it with balanced pushes and pops,
/// and ending it brings building back to where it was in the base layer,
/// and leaves the overlay's build parent where it was; every earlier
/// control's parent and state bytes are as they were.
pub proof fn law_overlay_restores(s: BuildState, inner: Seq<BuildOp>, frame: u32, fresh: CtrlState)
    requires
        build_inv(s, frame),
        !s.overlay,
        balanced(inner),
        run_ok(build_step(s, BuildOp::BeginOverlay, frame, fresh), inner, frame, fresh),
    ensures
        ({
            let s1 = build_step(s, BuildOp::BeginOverlay, frame, fresh);
            let s2 = build_run(s1, inner, frame, fresh);
            &&& step_ok(s2, BuildOp::EndOverlay, frame)
            &&& ({
                let s3 = build_step(s2, BuildOp::EndOverlay, frame, fresh);
                &&& s3.bp == s.bp && s3.bs == s.bs
                &&& s3.obp == s.obp
                &&& !s3.overlay
                &&& s3.nodes.len() >= s.nodes.len()
                &&& s3.states.subrange(0, s.states.len() as int) == s.states
                &&& forall|i: int| 0 <= i < s.nodes.len() ==> #[trigger] s3.nodes[i].parent_idx == s.nodes[i].parent_idx
            })
        }),
{
    let s1 = build_step(s, BuildOp::BeginOverlay, frame, fresh);
    law_swap_layers_build_ok(s.nodes, s.rank, frame, s.bp, s.bs, s.obp, s.obs);
    assert(build_inv(s1, frame));
    assert forall|k: int| 0 <= k <= inner.len() implies #[trigger] depth(inner.take(k)) + 0nat >= 0 by {
        assert(depth(inner.take(k)) >= 0);
    }
    lemma_run(s1, inner, frame, fresh, 0);
    let s2 = build_run(s1, inner, frame, fresh);
    assert(s1.states.subrange(0, s.states.len() as int) =~= s.states);
}

} // verus!
