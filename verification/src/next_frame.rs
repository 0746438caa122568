//! What one frame hands the next. Collecting the controls that were not
//! pushed moves the others to new places; a child is then found under its
//! parent's new place by the same id as before, at its own new place and
//! with the state it had, so pushing it again in the next frame picks that
//! state up.
use vstd::prelude::*;
use vstd::set_lib::*;

use crate::ctrl_state::CtrlState;
use crate::ui::{
    compacted, compacted_seqs, find_child, find_in_chain, link_ok, live_count, live_in, map_link, moved_node,
    moved_to,
    CtrlNode, Ui,
};

verus! {

/// The control reached from `c` after following `t` sibling links, if the
/// chain is that long.
pub open spec fn chain_at(nodes: Seq<CtrlNode>, c: int, t: nat) -> Option<int>
    decreases t,
{
    if !(0 <= c < nodes.len()) {
        None
    } else if t == 0 {
        Some(c)
    } else {
        match nodes[c].sibling_idx {
            Some(s) => chain_at(nodes, s as int, (t - 1) as nat),
            None => None,
        }
    }
}

/// The chain from `c` has a control at step `t`, and its id is not `id`.
pub open spec fn misses_at(nodes: Seq<CtrlNode>, c: int, t: nat, id: u32) -> bool {
    chain_at(nodes, c, t) matches Some(x) && nodes[x].id != id
}

/// A search result with its control and predecessor moved by `pos`.
pub open spec fn moved_found(r: Option<(usize, Option<usize>)>, pos: Seq<int>) -> Option<(usize, Option<usize>)> {
    match r {
        Some((f, p)) => Some((pos[f as int] as usize, map_link(p, pos))),
        None => None,
    }
}

proof fn lemma_chain_shift(nodes: Seq<CtrlNode>, c: int, a: nat, b: nat)
    ensures
        chain_at(nodes, c, a + b) == match chain_at(nodes, c, a) {
            Some(x) => chain_at(nodes, x, b),
            None => None,
        },
    decreases a,
{
    if a > 0 && 0 <= c < nodes.len() {
        if let Some(s) = nodes[c].sibling_idx {
            lemma_chain_shift(nodes, s as int, (a - 1) as nat, b);
            assert((a + b - 1) as nat == ((a - 1) as nat + b) as nat);
        }
    }
}

/// Where one more step of fuel changes a search, the chain runs on for one
/// more step, and the id is found only at its end.
proof fn lemma_fuel_step(nodes: Seq<CtrlNode>, c: int, prev: Option<usize>, id: u32, m: nat)
    requires
        find_in_chain(nodes, c, prev, id, m) != find_in_chain(nodes, c, prev, id, m + 1),
    ensures
        forall|t: nat| t <= m ==> #[trigger] misses_at(nodes, c, t, id),
        chain_at(nodes, c, m + 1) matches Some(x) && nodes[x].id == id,
    decreases m,
{
    let s = nodes[c].sibling_idx->0 as int;
    assert(0 <= c < nodes.len() && nodes[c].id != id && nodes[c].sibling_idx is Some);
    if m > 0 {
        lemma_fuel_step(nodes, s, Some(c as usize), id, (m - 1) as nat);
        assert forall|t: nat| t <= m implies #[trigger] misses_at(nodes, c, t, id) by {
            if t > 0 {
                assert(chain_at(nodes, c, t) == chain_at(nodes, s, (t - 1) as nat));
                assert(misses_at(nodes, s, (t - 1) as nat, id));
            }
        }
        assert(((m - 1) as nat + 1) as nat == m);
        assert(chain_at(nodes, c, m + 1) == chain_at(nodes, s, m));
    } else {
        assert forall|t: nat| t <= m implies #[trigger] misses_at(nodes, c, t, id) by {
            assert(t == 0);
        }
        assert(find_in_chain(nodes, c, prev, id, 0) is None);
        assert(find_in_chain(nodes, c, prev, id, 1) == find_in_chain(nodes, s, Some(c as usize), id, 0));
        assert(0 <= s < nodes.len() && nodes[s].id == id);
        assert(chain_at(nodes, s, 0) == Some(s));
        assert(chain_at(nodes, c, 1) == chain_at(nodes, s, 0));
    }
}

/// A chain whose first `k + 1` controls are all different has at least
/// that many controls.
proof fn lemma_distinct_chain_len(nodes: Seq<CtrlNode>, c: int, k: nat)
    requires
        forall|t: nat| t <= k ==> #[trigger] chain_at(nodes, c, t) is Some,
        forall|i: nat, j: nat| i < j <= k ==> #[trigger] chain_at(nodes, c, i) != #[trigger] chain_at(nodes, c, j),
    ensures
        k + 1 <= nodes.len(),
{
    let steps = set_int_range(0, k + 1int);
    let f = |t: int| chain_at(nodes, c, t as nat)->0;
    lemma_int_range(0, k + 1int);
    lemma_int_range(0, nodes.len() as int);
    assert forall|a: int, b: int| steps.contains(a) && steps.contains(b) && #[trigger] f(a) == #[trigger] f(b) implies a == b by {
        if a < b {
            assert(chain_at(nodes, c, a as nat) != chain_at(nodes, c, b as nat));
        } else if b < a {
            assert(chain_at(nodes, c, b as nat) != chain_at(nodes, c, a as nat));
        }
    }
    let reached = steps.map(f);
    lemma_map_size(steps, reached, f);
    assert forall|x: int| reached.contains(x) implies set_int_range(0, nodes.len() as int).contains(x) by {
        let t = choose|t: int| steps.contains(t) && f(t) == x;
        let o = chain_at(nodes, c, t as nat);
        assert(o is Some);
        lemma_chain_in_nodes(nodes, c, t as nat);
    }
    lemma_len_subset(reached, set_int_range(0, nodes.len() as int));
}

proof fn lemma_chain_in_nodes(nodes: Seq<CtrlNode>, c: int, t: nat)
    ensures
        chain_at(nodes, c, t) matches Some(x) ==> 0 <= x < nodes.len(),
    decreases t,
{
    if t > 0 && 0 <= c < nodes.len() {
        if let Some(s) = nodes[c].sibling_idx {
            lemma_chain_in_nodes(nodes, s as int, (t - 1) as nat);
        }
    }
}

/// Once the fuel covers every control, more fuel finds nothing new: a
/// search that would need more steps has gone round a cycle of siblings
/// without the id.
proof fn lemma_fuel_enough(nodes: Seq<CtrlNode>, c: int, prev: Option<usize>, id: u32, m: nat)
    requires
        m + 1 >= nodes.len(),
    ensures
        find_in_chain(nodes, c, prev, id, m) == find_in_chain(nodes, c, prev, id, m + 1),
{
    if find_in_chain(nodes, c, prev, id, m) != find_in_chain(nodes, c, prev, id, m + 1) {
        lemma_fuel_step(nodes, c, prev, id, m);
        let k = m + 1;
        assert forall|t: nat| t <= k implies #[trigger] chain_at(nodes, c, t) is Some by {
            if t <= m {
                assert(misses_at(nodes, c, t, id));
            }
        }
        assert forall|i: nat, j: nat| i < j <= k implies #[trigger] chain_at(nodes, c, i) != #[trigger] chain_at(nodes, c, j) by {
            if chain_at(nodes, c, i) == chain_at(nodes, c, j) {
                let d = (k - j) as nat;
                lemma_chain_shift(nodes, c, j, d);
                lemma_chain_shift(nodes, c, i, d);
                assert((j + d) as nat == k);
                assert(misses_at(nodes, c, (i + d) as nat, id));
            }
        }
        lemma_distinct_chain_len(nodes, c, k);
    }
}

proof fn lemma_fuel_beyond(nodes: Seq<CtrlNode>, c: int, prev: Option<usize>, id: u32, a: nat, b: nat)
    requires
        a + 1 >= nodes.len(),
        a <= b,
    ensures
        find_in_chain(nodes, c, prev, id, a) == find_in_chain(nodes, c, prev, id, b),
    decreases b - a,
{
    if a < b {
        lemma_fuel_enough(nodes, c, prev, id, a);
        lemma_fuel_beyond(nodes, c, prev, id, a + 1, b);
    }
}

/// `find_child` follows at most as many siblings as there are controls;
/// following more never finds anything else, even where the siblings run
/// in a cycle.
pub proof fn law_find_child_steps_suffice(nodes: Seq<CtrlNode>, parent: int, id: u32, k: nat)
    requires
        0 <= parent < nodes.len(),
        nodes.len() <= k,
    ensures
        find_child(nodes, parent, id) == match nodes[parent].child_idx {
            Some(c) => find_in_chain(nodes, c as int, None, id, k),
            None => None,
        },
{
    if let Some(c) = nodes[parent].child_idx {
        lemma_fuel_beyond(nodes, c as int, None, id, nodes.len(), k);
    }
}

/// Searching the moved chain gives the moved result, step for step.
proof fn lemma_find_moved<P>(
    old_nodes: Seq<CtrlNode>,
    old_states: Seq<CtrlState>,
    old_payloads: Seq<P>,
    frame: u32,
    new_nodes: Seq<CtrlNode>,
    new_states: Seq<CtrlState>,
    new_payloads: Seq<P>,
    pos: Seq<int>,
    c: int,
    prev: Option<usize>,
    id: u32,
    k: nat,
)
    requires
        compacted_seqs(old_nodes, old_states, old_payloads, frame, new_nodes, new_states, new_payloads, pos),
        old_nodes.len() <= usize::MAX,
        new_nodes.len() <= usize::MAX,
        0 <= c < old_nodes.len(),
        live_in(old_nodes, frame, c),
        forall|i: int|
            0 <= i < old_nodes.len() && #[trigger] live_in(old_nodes, frame, i) ==> (
            old_nodes[i].sibling_idx matches Some(s) ==> 0 <= s < old_nodes.len() && live_in(old_nodes, frame, s as int)),
    ensures
        find_in_chain(new_nodes, pos[c], map_link(prev, pos), id, k) == moved_found(
            find_in_chain(old_nodes, c, prev, id, k),
            pos,
        ),
    decreases k,
{
    assert(live_in(old_nodes, frame, c));
    let pc = pos[c];
    assert(0 <= pc < new_nodes.len());
    assert(new_nodes[pc] == moved_node(old_nodes[c], pos));
    assert(pc as usize as int == pc);
    assert(c as usize as int == c);
    if old_nodes[c].id != id {
        if let Some(s) = old_nodes[c].sibling_idx {
            if k > 0 {
                lemma_find_moved(
                    old_nodes,
                    old_states,
                    old_payloads,
                    frame,
                    new_nodes,
                    new_states,
                    new_payloads,
                    pos,
                    s as int,
                    Some(c as usize),
                    id,
                    (k - 1) as nat,
                );
                assert(map_link(Some(c as usize), pos) == Some(pc as usize));
            }
        }
    }
}

/// The controls left after collection are exactly as many as were live,
/// so no more than there were.
pub proof fn lemma_compacted_len<P>(
    old_nodes: Seq<CtrlNode>,
    old_states: Seq<CtrlState>,
    old_payloads: Seq<P>,
    frame: u32,
    new_nodes: Seq<CtrlNode>,
    new_states: Seq<CtrlState>,
    new_payloads: Seq<P>,
    pos: Seq<int>,
)
    requires
        compacted_seqs(old_nodes, old_states, old_payloads, frame, new_nodes, new_states, new_payloads, pos),
    ensures
        new_nodes.len() == live_count(old_nodes, frame),
        new_nodes.len() <= old_nodes.len(),
{
    let n = old_nodes.len() as int;
    let live = set_int_range(0, n).filter(|i: int| live_in(old_nodes, frame, i));
    let f = |i: int| pos[i];
    lemma_int_range(0, n);
    lemma_int_range(0, new_nodes.len() as int);
    assert(live.subset_of(set_int_range(0, n)));
    lemma_len_subset(live, set_int_range(0, n));
    assert(live.map(f) =~= set_int_range(0, new_nodes.len() as int)) by {
        assert forall|k: int| set_int_range(0, new_nodes.len() as int).contains(k) implies live.map(f).contains(k) by {
            assert(moved_to(old_nodes, frame, pos, k));
            let i = choose|i: int| #![trigger pos[i]] 0 <= i < n && live_in(old_nodes, frame, i) && pos[i] == k;
            assert(live.contains(i) && f(i) == k);
        }
        assert forall|k: int| live.map(f).contains(k) implies set_int_range(0, new_nodes.len() as int).contains(k) by {
            let i = choose|i: int| live.contains(i) && f(i) == k;
            assert(live_in(old_nodes, frame, i));
        }
    }
    assert forall|a: int, b: int| live.contains(a) && live.contains(b) && #[trigger] f(a) == #[trigger] f(b) implies a == b by {
        assert(live_in(old_nodes, frame, a) && live_in(old_nodes, frame, b));
    }
    lemma_map_size(live, set_int_range(0, new_nodes.len() as int), f);
}

proof fn lemma_collected_child_found_again<P>(
    old_nodes: Seq<CtrlNode>,
    old_states: Seq<CtrlState>,
    old_payloads: Seq<P>,
    frame: u32,
    new_nodes: Seq<CtrlNode>,
    new_states: Seq<CtrlState>,
    new_payloads: Seq<P>,
    pos: Seq<int>,
    parent: int,
    id: u32,
)
    requires
        compacted_seqs(old_nodes, old_states, old_payloads, frame, new_nodes, new_states, new_payloads, pos),
        old_nodes.len() <= usize::MAX,
        0 <= parent < old_nodes.len(),
        live_in(old_nodes, frame, parent),
        forall|i: int|
            0 <= i < old_nodes.len() && #[trigger] live_in(old_nodes, frame, i) ==> {
                &&& (old_nodes[i].child_idx matches Some(c) ==> 0 <= c < old_nodes.len() && live_in(old_nodes, frame, c as int))
                &&& (old_nodes[i].sibling_idx matches Some(s) ==> 0 <= s < old_nodes.len() && live_in(old_nodes, frame, s as int))
            },
    ensures
        find_child(new_nodes, pos[parent], id) == moved_found(find_child(old_nodes, parent, id), pos),
        find_child(old_nodes, parent, id) matches Some((f, _)) ==> new_states[pos[f as int]] == old_states[f as int],
{
    assert(live_in(old_nodes, frame, parent));
    let pp = pos[parent];
    assert(new_nodes[pp] == moved_node(old_nodes[parent], pos));
    if let Some(c) = old_nodes[parent].child_idx {
        let c = c as int;
        lemma_compacted_len(old_nodes, old_states, old_payloads, frame, new_nodes, new_states, new_payloads, pos);
        lemma_find_moved(
            old_nodes,
            old_states,
            old_payloads,
            frame,
            new_nodes,
            new_states,
            new_payloads,
            pos,
            c,
            None,
            id,
            old_nodes.len(),
        );
        assert(0 <= pos[c] < new_nodes.len());
        assert(pos[c] as usize as int == pos[c]);
        lemma_fuel_beyond(new_nodes, pos[c], None, id, new_nodes.len(), old_nodes.len());
        if let Some((f, _)) = find_child(old_nodes, parent, id) {
            lemma_found_live(old_nodes, frame, c, None, id, old_nodes.len());
            assert(live_in(old_nodes, frame, f as int));
        }
    }
}

/// What a search finds in a chain of live controls is live.
proof fn lemma_found_live(nodes: Seq<CtrlNode>, frame: u32, c: int, prev: Option<usize>, id: u32, k: nat)
    requires
        nodes.len() <= usize::MAX,
        0 <= c < nodes.len(),
        live_in(nodes, frame, c),
        forall|i: int|
            0 <= i < nodes.len() && #[trigger] live_in(nodes, frame, i) ==> (nodes[i].sibling_idx matches Some(
                s,
            ) ==> 0 <= s < nodes.len() && live_in(nodes, frame, s as int)),
    ensures
        find_in_chain(nodes, c, prev, id, k) matches Some((f, _)) ==> 0 <= f < nodes.len() && live_in(nodes, frame, f as int),
    decreases k,
{
    assert(c as usize as int == c);
    if nodes[c].id != id && k > 0 {
        if let Some(s) = nodes[c].sibling_idx {
            assert(live_in(nodes, frame, c));
            lemma_found_live(nodes, frame, s as int, Some(c as usize), id, (k - 1) as nat);
        }
    }
}

/// Collecting the dead controls at the end of a frame (`Ui::collect_dead`)
/// keeps what the next frame finds: a child found by `id` under a live
/// control before is found by the same id under that control's new place
/// after, at its own new place, behind its predecessor's new place, and
/// with the state it had. This holds of a well-formed UI whose live
/// controls link only to live controls, as closing the frame leaves it.
pub proof fn law_collect_dead_finds_children_again<P, D>(
    old: Ui<P, D>,
    new: Ui<P, D>,
    pos: Seq<int>,
    parent: int,
    id: u32,
)
    requires
        old.wf(),
        old.links_live(),
        compacted(old, new, pos),
        0 <= parent < old.nodes().len(),
        old.live(parent),
    ensures
        find_child(new.nodes(), pos[parent], id) == moved_found(find_child(old.nodes(), parent, id), pos),
        find_child(old.nodes(), parent, id) matches Some((f, _)) ==> new.states()[pos[f as int]]
            == old.states()[f as int],
{
    old.lemma_wf_links();
    let nodes = old.nodes();
    let frame = old.frame();
    assert forall|i: int| 0 <= i < nodes.len() && #[trigger] live_in(nodes, frame, i) implies {
        &&& (nodes[i].child_idx matches Some(c) ==> 0 <= c < nodes.len() && live_in(nodes, frame, c as int))
        &&& (nodes[i].sibling_idx matches Some(s) ==> 0 <= s < nodes.len() && live_in(nodes, frame, s as int))
    } by {
        assert(old.live(i));
        assert(link_ok(nodes[i].child_idx, nodes.len() as int));
        assert(link_ok(nodes[i].sibling_idx, nodes.len() as int));
    }
    lemma_collected_child_found_again(
        nodes,
        old.states(),
        old.payloads(),
        frame,
        new.nodes(),
        new.states(),
        new.payloads(),
        pos,
        parent,
        id,
    );
}

/// Collecting the dead controls keeps which control is active: where the
/// active control was pushed in the frame (or none was active), a live
/// control is active after collection, at its new place, exactly when it
/// was active before.
pub proof fn law_collect_dead_keeps_activity<P, D>(old: Ui<P, D>, new: Ui<P, D>, pos: Seq<int>, f: int)
    requires
        old.wf(),
        new.wf(),
        compacted(old, new, pos),
        new.active_ctrl() == match old.active_ctrl() {
            Some(a) => Some(
                if a < old.nodes().len() && old.live(a as int) {
                    pos[a as int] as usize
                } else {
                    a
                },
            ),
            None => None,
        },
        old.active_ctrl() matches Some(a) ==> a < old.nodes().len() && old.live(a as int),
        0 <= f < old.nodes().len(),
        old.live(f),
    ensures
        new.active_ctrl() == Some(pos[f] as usize) <==> old.active_ctrl() == Some(f as usize),
{
    old.lemma_wf_links();
    new.lemma_wf_links();
    assert(live_in(old.nodes(), old.frame(), f));
    assert(0 <= pos[f] < new.nodes().len());
    assert(pos[f] as usize as int == pos[f]);
    if let Some(a) = old.active_ctrl() {
        assert(live_in(old.nodes(), old.frame(), a as int));
        assert(0 <= pos[a as int] < new.nodes().len());
        assert(pos[a as int] as usize as int == pos[a as int]);
        if a as int != f {
            assert(pos[a as int] != pos[f]);
        }
    }
}

} // verus!
