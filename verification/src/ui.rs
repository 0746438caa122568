//! The tree of controls that an immediate-mode UI rebuilds every frame.
//!
//! Controls are identified by an id that is unique among the children of
//! one control. Each frame, pushing a control either finds the control of
//! that id among the children of the current parent (from an earlier frame)
//! or makes a new one, and links it after the controls pushed before it.
//! Controls that were not pushed in a frame are removed when it ends.
//!
//! Index 0 is the root of the base layer and index 1 the root of the overlay
//! layer. What a control holds besides the tree (its geometry) is its
//! payload `P`; what it draws goes into a list of draw primitives `D`.
//!
//! A frame goes `begin_frame`, pushes and pops, `close_roots`,
//! `collect_dead`, `finish_frame`. Each step keeps `build_ok` (see
//! `building`), which `close_roots` turns into the `links_live` that
//! `collect_dead` needs; `collect_dead` leaves a `consistent` tree whose
//! controls are all live, from which `begin_frame` starts the next frame.
use vstd::prelude::*;
use vstd::string::*;
use vstd::utf8::*;

use arrayvec::ArrayString;

use crate::building::{build_ok_in, links_consistent};
use crate::ctrl_state::CtrlState;
use crate::flags::{CtrlFlags, Inputs};
use crate::inline_string::{typed_as_str, typed_bytes, typed_clear, typed_new, typed_try_push};
use crate::walk::{
    descent, draw_order_in, draw_order_of, hover_order_in, hovered_from, hovered_in, none_inside,
    walk_links_ok,
};

verus! {

/// How a control places its children.
#[derive(Debug, Clone, Copy, PartialEq, Eq, Structural, Hash)]
pub enum Layout {
    Free,
    Horizontal,
    Vertical,
}

/// Where text goes along one axis.
#[derive(Debug, Clone, Copy, PartialEq, Eq, Structural, Hash)]
pub enum Align {
    Start,
    Center,
    End,
}

/// How text breaks into lines.
#[derive(Debug, Clone, Copy, PartialEq, Eq, Structural, Hash)]
pub enum Wrap {
    Word,
    Letter,
    /// No wrapping.
    Off,
}

/// The index of the root of the base layer.
pub const ROOT_IDX: usize = 0;
/// The index of the root of the overlay layer.
pub const OVERLAY_ROOT_IDX: usize = 1;

/// One control in the tree: its links, its frame stamps and its settings.
#[derive(Debug, Clone, Copy)]
pub struct CtrlNode {
    /// Unique across siblings, but no further.
    pub id: u32,
    pub parent_idx: Option<usize>,
    pub child_idx: Option<usize>,
    pub sibling_idx: Option<usize>,
    /// The last frame in which the control was pushed.
    pub last_frame: u32,
    /// The last frame in which the control was active or the ancestor of an
    /// active control.
    pub last_frame_in_active_path: u32,
    pub flags: CtrlFlags,
    pub layout: Layout,
    pub draw_self: bool,
    pub draw_self_border_color: u32,
    pub draw_self_background_color: u32,
    /// The draw primitives of the control run from here...
    pub draw_range_start: usize,
    /// ...to here.
    pub draw_range_end: usize,
}

/// A link is absent or points into a tree of `len` controls.
pub open spec fn link_ok(link: Option<usize>, len: int) -> bool {
    link matches Some(i) ==> i < len
}

/// Every link in `nodes` points at a control, and parents are lower than
/// their children in `rank`.
pub open spec fn tree_ok(nodes: Seq<CtrlNode>, rank: Seq<nat>) -> bool {
    let n = nodes.len() as int;
    &&& rank.len() == n
    &&& forall|i: int|
        0 <= i < n ==> {
            &&& link_ok((#[trigger] nodes[i]).parent_idx, n)
            &&& link_ok(nodes[i].child_idx, n)
            &&& link_ok(nodes[i].sibling_idx, n)
            &&& (nodes[i].parent_idx matches Some(p) ==> rank[p as int] < rank[i])
        }
}

/// The state of a UI: the tree of controls, the draw primitives of the
/// frame, where the next control goes, and what is hovered and active.
pub struct Ui<P, D> {
    nodes: Vec<CtrlNode>,
    states: Vec<CtrlState>,
    payloads: Vec<P>,
    draw_primitives: Vec<D>,
    font_atlas_texture_id: u64,
    building_overlay: bool,
    build_parent_idx: Option<usize>,
    build_sibling_idx: Option<usize>,
    overlay_build_parent_idx: Option<usize>,
    overlay_build_sibling_idx: Option<usize>,
    current_frame: u32,
    inputs_pressed: Inputs,
    inputs_released: Inputs,
    active_ctrl_idx: Option<usize>,
    hovered_ctrl_idx: Option<usize>,
    hovered_capturing_ctrl_idx: Option<usize>,
    want_capture_keyboard: bool,
    want_capture_mouse: bool,
    /// The text typed in this frame.
    received_characters: ArrayString<32>,
    /// A height of each control that grows from parent to child, so that
    /// walking up the tree ends.
    rank: Ghost<Seq<nat>>,
    /// Whether a frame is being built.
    frame_open: Ghost<bool>,
}

impl<P, D> Ui<P, D> {
    /// The controls.
    pub closed spec fn nodes(&self) -> Seq<CtrlNode> {
        self.nodes@
    }

    /// The state memory of each control.
    pub closed spec fn states(&self) -> Seq<CtrlState> {
        self.states@
    }

    /// The payload of each control.
    pub closed spec fn payloads(&self) -> Seq<P> {
        self.payloads@
    }

    /// The draw primitives of the frame.
    pub closed spec fn primitives(&self) -> Seq<D> {
        self.draw_primitives@
    }

    pub closed spec fn texture_id(&self) -> u64 {
        self.font_atlas_texture_id
    }

    pub closed spec fn overlay(&self) -> bool {
        self.building_overlay
    }

    /// The control that pushed controls become children of.
    pub closed spec fn build_parent(&self) -> Option<usize> {
        self.build_parent_idx
    }

    /// The control that was pushed last under the build parent.
    pub closed spec fn build_sibling(&self) -> Option<usize> {
        self.build_sibling_idx
    }

    /// The build parent of the layer that is not being built.
    pub closed spec fn other_build_parent(&self) -> Option<usize> {
        self.overlay_build_parent_idx
    }

    /// The build sibling of the layer that is not being built.
    pub closed spec fn other_build_sibling(&self) -> Option<usize> {
        self.overlay_build_sibling_idx
    }

    pub closed spec fn frame(&self) -> u32 {
        self.current_frame
    }

    pub closed spec fn pressed(&self) -> Inputs {
        self.inputs_pressed
    }

    pub closed spec fn released(&self) -> Inputs {
        self.inputs_released
    }

    pub closed spec fn active_ctrl(&self) -> Option<usize> {
        self.active_ctrl_idx
    }

    pub closed spec fn hovered_ctrl(&self) -> Option<usize> {
        self.hovered_ctrl_idx
    }

    pub closed spec fn hovered_capturing_ctrl(&self) -> Option<usize> {
        self.hovered_capturing_ctrl_idx
    }

    pub closed spec fn capture_keyboard(&self) -> bool {
        self.want_capture_keyboard
    }

    pub closed spec fn capture_mouse(&self) -> bool {
        self.want_capture_mouse
    }

    /// The UTF-8 bytes of the text typed in this frame.
    pub closed spec fn received(&self) -> Seq<u8> {
        typed_bytes(self.received_characters)
    }

    /// Whether a frame is being built: between `begin_frame` and
    /// `collect_dead`.
    pub closed spec fn building(&self) -> bool {
        self.frame_open@
    }

    /// The UI is well formed: the two roots exist, every link points at a
    /// control, parents are lower than their children, and while a frame is
    /// built, the build positions point at controls.
    pub closed spec fn wf(&self) -> bool {
        let n = self.nodes@.len() as int;
        &&& n >= 2
        &&& self.states@.len() == n
        &&& self.payloads@.len() == n
        &&& tree_ok(self.nodes@, self.rank@)
        &&& self.frame_open@ ==> {
            &&& link_ok(self.build_parent_idx, n)
            &&& link_ok(self.build_sibling_idx, n)
            &&& link_ok(self.overlay_build_parent_idx, n)
            &&& link_ok(self.overlay_build_sibling_idx, n)
        }
    }

    /// Control `i` was pushed in the current frame (the roots always are
    /// once a frame begins).
    pub open spec fn live(&self, i: int) -> bool {
        live_in(self.nodes(), self.frame(), i)
    }

    /// Every link of a live control points at a live control, so removing
    /// the other controls leaves no dangling links.
    pub open spec fn links_live(&self) -> bool {
        forall|i: int|
            0 <= i < self.nodes().len() && #[trigger] self.live(i) ==> {
                &&& (self.nodes()[i].parent_idx matches Some(p) ==> self.live(p as int))
                &&& (self.nodes()[i].child_idx matches Some(c) ==> self.live(c as int))
                &&& (self.nodes()[i].sibling_idx matches Some(s) ==> self.live(s as int))
            }
    }

    /// The links are as every state has them (see `links_consistent`).
    pub open spec fn consistent(&self) -> bool {
        links_consistent(self.nodes())
    }

    /// Every control was pushed in the current frame.
    pub open spec fn all_live(&self) -> bool {
        forall|i: int| 0 <= i < self.nodes().len() ==> #[trigger] self.live(i)
    }

    /// A frame is being built and the tree is as building needs it (see
    /// `build_ok_in`).
    pub open spec fn build_ok(&self) -> bool {
        &&& self.building()
        &&& build_ok_in(
            self.nodes(),
            self.ranks(),
            self.frame(),
            self.build_parent(),
            self.build_sibling(),
            self.other_build_parent(),
            self.other_build_sibling(),
        )
    }

    /// The heights of the controls.
    pub closed spec fn ranks(&self) -> Seq<nat> {
        self.rank@
    }

    /// The controls from `i` up to its root, walking parent links.
    pub open spec fn ancestors(&self, i: int) -> Set<int> {
        ancestors_in(self.nodes(), self.ranks(), i)
    }

    /// The first control from `i` up its ancestors that has one of `flags`,
    /// or the root reached when none has.
    pub open spec fn first_with_flags(&self, i: int, flags: CtrlFlags) -> int {
        first_with_flags_in(self.nodes(), self.ranks(), i, flags)
    }
}

/// The controls from `i` up to its root in `nodes`, walking parent links
/// that go down in `rank`.
pub open spec fn ancestors_in(nodes: Seq<CtrlNode>, rank: Seq<nat>, i: int) -> Set<int>
    decreases rank[i],
{
    if 0 <= i < nodes.len() && rank.len() == nodes.len() {
        match nodes[i].parent_idx {
            Some(p) => if 0 <= p < nodes.len() && rank[p as int] < rank[i] {
                ancestors_in(nodes, rank, p as int).insert(i)
            } else {
                set![i]
            },
            None => set![i],
        }
    } else {
        set![i]
    }
}

/// The first control from `i` up its ancestors in `nodes` that has one of
/// `flags`, or the root reached when none has.
pub open spec fn first_with_flags_in(nodes: Seq<CtrlNode>, rank: Seq<nat>, i: int, flags: CtrlFlags) -> int
    decreases rank[i],
{
    if 0 <= i < nodes.len() && rank.len() == nodes.len() {
        if nodes[i].flags.0 & flags.0 != 0 {
            i
        } else {
            match nodes[i].parent_idx {
                Some(p) => if 0 <= p < nodes.len() && rank[p as int] < rank[i] {
                    first_with_flags_in(nodes, rank, p as int, flags)
                } else {
                    i
                },
                None => i,
            }
        }
    } else {
        i
    }
}

/// The first control from `i` up its ancestors in `nodes` that is marked in
/// `marks`, if any.
pub open spec fn first_marked_in(nodes: Seq<CtrlNode>, rank: Seq<nat>, i: int, marks: Seq<bool>) -> Option<usize>
    decreases rank[i],
{
    if 0 <= i < nodes.len() && rank.len() == nodes.len() {
        if marks[i] {
            Some(i as usize)
        } else {
            match nodes[i].parent_idx {
                Some(p) => if 0 <= p < nodes.len() && rank[p as int] < rank[i] {
                    first_marked_in(nodes, rank, p as int, marks)
                } else {
                    None
                },
                None => None,
            }
        }
    } else {
        None
    }
}

/// The control that captures the hover of control `h`: the first control
/// from `h` up its ancestors that captures hover, if there is one.
pub open spec fn capturing_of(nodes: Seq<CtrlNode>, rank: Seq<nat>, h: Option<usize>) -> Option<usize> {
    match h {
        Some(h) => {
            let c = first_with_flags_in(nodes, rank, h as int, CtrlFlags(2));
            if nodes[c].flags.0 & 2 != 0 {
                Some(c as usize)
            } else {
                None
            }
        },
        None => None,
    }
}

/// A fresh control, for the root of a layer or for a control pushed the
/// first time.
pub open spec fn fresh_node(id: u32, parent: Option<usize>, sibling: Option<usize>, frame: u32, draw_start: usize) -> CtrlNode {
    CtrlNode {
        id,
        parent_idx: parent,
        child_idx: None,
        sibling_idx: sibling,
        last_frame: frame,
        last_frame_in_active_path: 0,
        flags: CtrlFlags(0),
        layout: Layout::Free,
        draw_self: false,
        draw_self_border_color: 0,
        draw_self_background_color: 0,
        draw_range_start: draw_start,
        draw_range_end: draw_start,
    }
}

fn make_node(id: u32, parent: Option<usize>, sibling: Option<usize>, frame: u32, draw_start: usize) -> (r: CtrlNode)
    ensures
        r == fresh_node(id, parent, sibling, frame, draw_start),
{
    CtrlNode {
        id,
        parent_idx: parent,
        child_idx: None,
        sibling_idx: sibling,
        last_frame: frame,
        last_frame_in_active_path: 0,
        flags: CtrlFlags(0),
        layout: Layout::Free,
        draw_self: false,
        draw_self_border_color: 0,
        draw_self_background_color: 0,
        draw_range_start: draw_start,
        draw_range_end: draw_start,
    }
}

impl<P, D> Ui<P, D> {
    /// Creates a UI with the two roots, whose payloads are given.
    pub fn new(root_payload: P, overlay_root_payload: P) -> (r: Self)
        ensures
            r.wf(),
            !r.building(),
            r.nodes() == seq![fresh_node(0, None, None, 0, 0), fresh_node(0, None, None, 0, 0)],
            r.states().len() == 2,
            forall|i: int| 0 <= i < 2 ==> #[trigger] r.states()[i]@ == Seq::new(64, |j: int| 0u8),
            r.payloads() == seq![root_payload, overlay_root_payload],
            r.primitives().len() == 0,
            r.frame() == 0,
            r.texture_id() == 0,
            !r.overlay(),
            r.build_parent() is None && r.build_sibling() is None,
            r.other_build_parent() is None && r.other_build_sibling() is None,
            r.pressed() == Inputs(0) && r.released() == Inputs(0),
            r.active_ctrl() is None && r.hovered_ctrl() is None && r.hovered_capturing_ctrl() is None,
            !r.capture_keyboard() && !r.capture_mouse(),
            r.consistent(),
            r.all_live(),
            r.received().len() == 0,
    {
        let mut nodes: Vec<CtrlNode> = Vec::new();
        nodes.push(make_node(0, None, None, 0, 0));
        nodes.push(make_node(0, None, None, 0, 0));
        let mut states: Vec<CtrlState> = Vec::new();
        states.push([0u8; 64]);
        states.push([0u8; 64]);
        let mut payloads: Vec<P> = Vec::new();
        payloads.push(root_payload);
        payloads.push(overlay_root_payload);
        let ghost rank = seq![0nat, 0nat];
        let r = Ui {
            nodes,
            states,
            payloads,
            draw_primitives: Vec::new(),
            font_atlas_texture_id: 0,
            building_overlay: false,
            build_parent_idx: None,
            build_sibling_idx: None,
            overlay_build_parent_idx: None,
            overlay_build_sibling_idx: None,
            current_frame: 0,
            inputs_pressed: Inputs(0),
            inputs_released: Inputs(0),
            active_ctrl_idx: None,
            hovered_ctrl_idx: None,
            hovered_capturing_ctrl_idx: None,
            want_capture_keyboard: false,
            want_capture_mouse: false,
            received_characters: typed_new(),
            rank: Ghost(rank),
            frame_open: Ghost(false),
        };
        assert(r.nodes@ =~= seq![fresh_node(0, None, None, 0, 0), fresh_node(0, None, None, 0, 0)]);
        assert(r.states@[0]@ =~= Seq::new(64, |j: int| 0u8));
        assert(r.states@[1]@ =~= Seq::new(64, |j: int| 0u8));
        assert(r.payloads@ =~= seq![root_payload, overlay_root_payload]);
        assert(crate::building::node_links_consistent(r.nodes@, 0));
        assert(crate::building::node_links_consistent(r.nodes@, 1));
        r
    }
}

/// `a` and `b` have the same tree, draw primitives, frame and build
/// positions.
pub open spec fn same_tree<P, D>(a: Ui<P, D>, b: Ui<P, D>) -> bool {
    &&& a.nodes() == b.nodes()
    &&& a.states() == b.states()
    &&& a.payloads() == b.payloads()
    &&& a.primitives() == b.primitives()
    &&& a.ranks() == b.ranks()
    &&& a.frame() == b.frame()
    &&& a.building() == b.building()
    &&& a.overlay() == b.overlay()
    &&& a.build_parent() == b.build_parent()
    &&& a.build_sibling() == b.build_sibling()
    &&& a.other_build_parent() == b.other_build_parent()
    &&& a.other_build_sibling() == b.other_build_sibling()
}

/// `a` and `b` have the same inputs, active and hovered controls, capture
/// requests and texture.
pub open spec fn same_status<P, D>(a: Ui<P, D>, b: Ui<P, D>) -> bool {
    &&& a.pressed() == b.pressed()
    &&& a.released() == b.released()
    &&& a.active_ctrl() == b.active_ctrl()
    &&& a.hovered_ctrl() == b.hovered_ctrl()
    &&& a.hovered_capturing_ctrl() == b.hovered_capturing_ctrl()
    &&& a.capture_keyboard() == b.capture_keyboard()
    &&& a.capture_mouse() == b.capture_mouse()
    &&& a.texture_id() == b.texture_id()
    &&& a.received() == b.received()
}

impl<P, D> Ui<P, D> {
    pub fn set_font_atlas_texture_id(&mut self, font_atlas_texture_id: u64)
        ensures
            final(self).texture_id() == font_atlas_texture_id,
            same_tree(*old(self), *final(self)),
            final(self).pressed() == old(self).pressed(),
            final(self).released() == old(self).released(),
            final(self).active_ctrl() == old(self).active_ctrl(),
            final(self).hovered_ctrl() == old(self).hovered_ctrl(),
            final(self).hovered_capturing_ctrl() == old(self).hovered_capturing_ctrl(),
            final(self).capture_keyboard() == old(self).capture_keyboard(),
            final(self).capture_mouse() == old(self).capture_mouse(),
            final(self).received() == old(self).received(),
            old(self).wf() ==> final(self).wf(),
    {
        self.font_atlas_texture_id = font_atlas_texture_id;
    }

    pub fn font_atlas_texture_id(&self) -> (r: u64)
        ensures
            r == self.texture_id(),
    {
        self.font_atlas_texture_id
    }

    /// Adds `inputs` to the inputs pressed in this frame.
    pub fn press_inputs(&mut self, inputs: Inputs)
        ensures
            final(self).pressed().0 == old(self).pressed().0 | inputs.0,
            same_tree(*old(self), *final(self)),
            final(self).released() == old(self).released(),
            final(self).active_ctrl() == old(self).active_ctrl(),
            final(self).hovered_ctrl() == old(self).hovered_ctrl(),
            final(self).hovered_capturing_ctrl() == old(self).hovered_capturing_ctrl(),
            final(self).capture_keyboard() == old(self).capture_keyboard(),
            final(self).capture_mouse() == old(self).capture_mouse(),
            final(self).texture_id() == old(self).texture_id(),
            final(self).received() == old(self).received(),
            old(self).wf() ==> final(self).wf(),
    {
        self.inputs_pressed = self.inputs_pressed.union(inputs);
    }

    /// Adds `inputs` to the inputs released in this frame.
    pub fn release_inputs(&mut self, inputs: Inputs)
        ensures
            final(self).released().0 == old(self).released().0 | inputs.0,
            same_tree(*old(self), *final(self)),
            final(self).pressed() == old(self).pressed(),
            final(self).active_ctrl() == old(self).active_ctrl(),
            final(self).hovered_ctrl() == old(self).hovered_ctrl(),
            final(self).hovered_capturing_ctrl() == old(self).hovered_capturing_ctrl(),
            final(self).capture_keyboard() == old(self).capture_keyboard(),
            final(self).capture_mouse() == old(self).capture_mouse(),
            final(self).texture_id() == old(self).texture_id(),
            final(self).received() == old(self).received(),
            old(self).wf() ==> final(self).wf(),
    {
        self.inputs_released = self.inputs_released.union(inputs);
    }

    /// Keeps a typed character for this frame, unless the 32 bytes of typed
    /// text have no room for it.
    pub fn send_character(&mut self, character: char)
        ensures
            final(self).received() == if old(self).received().len() + encode_utf8(seq![character]).len() <= 32 {
                old(self).received() + encode_utf8(seq![character])
            } else {
                old(self).received()
            },
            same_tree(*old(self), *final(self)),
            final(self).pressed() == old(self).pressed(),
            final(self).released() == old(self).released(),
            final(self).active_ctrl() == old(self).active_ctrl(),
            final(self).hovered_ctrl() == old(self).hovered_ctrl(),
            final(self).hovered_capturing_ctrl() == old(self).hovered_capturing_ctrl(),
            final(self).capture_keyboard() == old(self).capture_keyboard(),
            final(self).capture_mouse() == old(self).capture_mouse(),
            final(self).texture_id() == old(self).texture_id(),
            old(self).wf() ==> final(self).wf(),
    {
        let _ = typed_try_push(&mut self.received_characters, character);
    }

    /// The text typed in this frame.
    pub fn received_characters(&self) -> (r: &str)
        ensures
            r.spec_bytes() == self.received(),
    {
        typed_as_str(&self.received_characters)
    }

    pub fn inputs_pressed(&self) -> (r: Inputs)
        ensures
            r == self.pressed(),
    {
        self.inputs_pressed
    }

    pub fn inputs_released(&self) -> (r: Inputs)
        ensures
            r == self.released(),
    {
        self.inputs_released
    }

    /// The number of controls in the tree.
    pub fn ctrl_count(&self) -> (r: usize)
        ensures
            r == self.nodes().len(),
    {
        self.nodes.len()
    }

    pub fn want_capture_keyboard(&self) -> (r: bool)
        ensures
            r == self.capture_keyboard(),
    {
        self.want_capture_keyboard
    }

    pub fn want_capture_mouse(&self) -> (r: bool)
        ensures
            r == self.capture_mouse(),
    {
        self.want_capture_mouse
    }

    /// The control at `idx`.
    pub fn node(&self, idx: usize) -> (r: CtrlNode)
        requires
            idx < self.nodes().len(),
        ensures
            r == self.nodes()[idx as int],
    {
        self.nodes[idx]
    }

    /// The state memory of the control at `idx`.
    pub fn state(&self, idx: usize) -> (r: CtrlState)
        requires
            idx < self.states().len(),
        ensures
            r == self.states()[idx as int],
    {
        self.states[idx]
    }

    /// Replaces the state memory of the control at `idx`.
    pub fn set_state(&mut self, idx: usize, state: CtrlState)
        requires
            old(self).wf(),
            idx < old(self).nodes().len(),
        ensures
            final(self).wf(),
            final(self).states() == old(self).states().update(idx as int, state),
            final(self).nodes() == old(self).nodes(),
            final(self).payloads() == old(self).payloads(),
            final(self).primitives() == old(self).primitives(),
            final(self).ranks() == old(self).ranks(),
            final(self).frame() == old(self).frame(),
            final(self).building() == old(self).building(),
            final(self).overlay() == old(self).overlay(),
            final(self).build_parent() == old(self).build_parent(),
            final(self).build_sibling() == old(self).build_sibling(),
            final(self).other_build_parent() == old(self).other_build_parent(),
            final(self).other_build_sibling() == old(self).other_build_sibling(),
            same_status(*old(self), *final(self)),
    {
        self.states.set(idx, state);
    }

    /// The payload of the control at `idx`.
    pub fn payload(&self, idx: usize) -> (r: &P)
        requires
            idx < self.payloads().len(),
        ensures
            *r == self.payloads()[idx as int],
    {
        &self.payloads[idx]
    }

    /// Replaces the payload of the control at `idx`.
    pub fn set_payload(&mut self, idx: usize, payload: P)
        requires
            old(self).wf(),
            idx < old(self).nodes().len(),
        ensures
            final(self).wf(),
            final(self).payloads() == old(self).payloads().update(idx as int, payload),
            final(self).nodes() == old(self).nodes(),
            final(self).states() == old(self).states(),
            final(self).primitives() == old(self).primitives(),
            final(self).ranks() == old(self).ranks(),
            final(self).frame() == old(self).frame(),
            final(self).building() == old(self).building(),
            final(self).overlay() == old(self).overlay(),
            final(self).build_parent() == old(self).build_parent(),
            final(self).build_sibling() == old(self).build_sibling(),
            final(self).other_build_parent() == old(self).other_build_parent(),
            final(self).other_build_sibling() == old(self).other_build_sibling(),
            same_status(*old(self), *final(self)),
    {
        self.payloads.set(idx, payload);
    }

    /// The draw primitives of this frame.
    pub fn draw_primitives(&self) -> (r: &[D])
        ensures
            r@ == self.primitives(),
    {
        self.draw_primitives.as_slice()
    }

    /// The control that pushed controls become children of, if any.
    pub fn build_parent_idx(&self) -> (r: Option<usize>)
        ensures
            r == self.build_parent(),
    {
        self.build_parent_idx
    }

    /// The build parent of the layer that is not being built.
    pub fn other_build_parent_idx(&self) -> (r: Option<usize>)
        ensures
            r == self.other_build_parent(),
    {
        self.overlay_build_parent_idx
    }

    /// Whether the overlay layer is being built.
    pub fn building_overlay(&self) -> (r: bool)
        ensures
            r == self.overlay(),
    {
        self.building_overlay
    }

    pub fn active_ctrl_idx(&self) -> (r: Option<usize>)
        ensures
            r == self.active_ctrl(),
    {
        self.active_ctrl_idx
    }

    pub fn hovered_ctrl_idx(&self) -> (r: Option<usize>)
        ensures
            r == self.hovered_ctrl(),
    {
        self.hovered_ctrl_idx
    }

    pub fn hovered_capturing_ctrl_idx(&self) -> (r: Option<usize>)
        ensures
            r == self.hovered_capturing_ctrl(),
    {
        self.hovered_capturing_ctrl_idx
    }

    pub fn current_frame(&self) -> (r: u32)
        ensures
            r == self.frame(),
    {
        self.current_frame
    }
}

/// `new` is `old` with the active-path stamp of the controls in `marked` set
/// to `frame`.
pub open spec fn stamped(old: Seq<CtrlNode>, new: Seq<CtrlNode>, marked: Set<int>, frame: u32) -> bool {
    &&& new.len() == old.len()
    &&& forall|k: int|
        0 <= k < old.len() ==> #[trigger] new[k] == (if marked.contains(k) {
            CtrlNode { last_frame_in_active_path: frame, ..old[k] }
        } else {
            old[k]
        })
}

/// The node `n` with its sibling link set to `s`.
pub open spec fn with_sibling(n: CtrlNode, s: Option<usize>) -> CtrlNode {
    CtrlNode { sibling_idx: s, ..n }
}

/// The node `n` with its child link set to `c`.
pub open spec fn with_child(n: CtrlNode, c: Option<usize>) -> CtrlNode {
    CtrlNode { child_idx: c, ..n }
}

/// Searches the chain of siblings from `cur` (whose predecessor is `prev`)
/// for the control `id`, taking at most `fuel` steps: the control found and
/// its predecessor.
pub open spec fn find_in_chain(nodes: Seq<CtrlNode>, cur: int, prev: Option<usize>, id: u32, fuel: nat) -> Option<(usize, Option<usize>)>
    decreases fuel,
{
    if !(0 <= cur < nodes.len()) {
        None
    } else if nodes[cur].id == id {
        Some((cur as usize, prev))
    } else {
        match nodes[cur].sibling_idx {
            Some(s) => if fuel == 0 {
                None
            } else {
                find_in_chain(nodes, s as int, Some(cur as usize), id, (fuel - 1) as nat)
            },
            None => None,
        }
    }
}

/// The child of `parent` whose id is `id`, and its predecessor among the
/// children, if there is one (siblings are followed at most as many times as
/// there are controls).
pub open spec fn find_child(nodes: Seq<CtrlNode>, parent: int, id: u32) -> Option<(usize, Option<usize>)> {
    match nodes[parent].child_idx {
        Some(c) => find_in_chain(nodes, c as int, None, id, nodes.len()),
        None => None,
    }
}

/// The controls after pushing the existing control `f` (with predecessor
/// `prev`) under `parent` after `b`: `f` is stamped with the frame and an
/// empty draw range at `n`, unlinked from its place and linked after `b`, or
/// first under `parent` when there is no `b`.
pub open spec fn relinked(nodes: Seq<CtrlNode>, parent: int, b: Option<usize>, f: int, prev: Option<usize>, frame: u32, n: usize) -> Seq<CtrlNode> {
    let t1 = nodes.update(f, CtrlNode { last_frame: frame, draw_range_start: n, draw_range_end: n, ..nodes[f] });
    let t2 = match prev {
        Some(pi) => t1.update(pi as int, with_sibling(t1[pi as int], t1[f].sibling_idx)),
        None => t1,
    };
    match b {
        Some(bi) => {
            let nxt = t2[bi as int].sibling_idx;
            if nxt != Some(f as usize) {
                let t3 = t2.update(bi as int, with_sibling(t2[bi as int], Some(f as usize)));
                t3.update(f, with_sibling(t3[f], nxt))
            } else {
                t2
            }
        },
        None => {
            let pc = t2[parent].child_idx;
            if pc != Some(f as usize) {
                let t3 = t2.update(parent, with_child(t2[parent], Some(f as usize)));
                t3.update(f, with_sibling(t3[f], pc))
            } else {
                t2
            }
        },
    }
}

/// The controls after pushing a new control `id` under `parent` after `b`:
/// it takes the place of the link that pointed after `b` (or to the first
/// child of `parent`) and comes last in the tree.
pub open spec fn appended(nodes: Seq<CtrlNode>, parent: int, b: Option<usize>, id: u32, frame: u32, n: usize) -> Seq<CtrlNode> {
    let idx = nodes.len() as usize;
    match b {
        Some(bi) => nodes.update(bi as int, with_sibling(nodes[bi as int], Some(idx))).push(
            fresh_node(id, Some(parent as usize), nodes[bi as int].sibling_idx, frame, n),
        ),
        None => nodes.update(parent, with_child(nodes[parent], Some(idx))).push(
            fresh_node(id, Some(parent as usize), nodes[parent].child_idx, frame, n),
        ),
    }
}

impl<P, D> Ui<P, D> {
    proof fn lemma_ancestors_step(&self, i: int)
        requires
            self.wf(),
            0 <= i < self.nodes().len(),
        ensures
            self.ancestors(i).contains(i),
            self.nodes()[i].parent_idx matches Some(p) ==> self.ancestors(i) == self.ancestors(
                p as int,
            ).insert(i),
            self.nodes()[i].parent_idx is None ==> self.ancestors(i) == set![i],
            self.first_with_flags(i, CtrlFlags(2)) == if self.nodes()[i].flags.0 & 2 != 0 {
                i
            } else {
                match self.nodes()[i].parent_idx {
                    Some(p) => self.first_with_flags(p as int, CtrlFlags(2)),
                    None => i,
                }
            },
            self.first_with_flags(i, CtrlFlags(4)) == if self.nodes()[i].flags.0 & 4 != 0 {
                i
            } else {
                match self.nodes()[i].parent_idx {
                    Some(p) => self.first_with_flags(p as int, CtrlFlags(4)),
                    None => i,
                }
            },
    {
        assert(link_ok(self.nodes@[i].parent_idx, self.nodes@.len() as int));
    }

    proof fn lemma_first_in_range(&self, i: int, flags: CtrlFlags)
        requires
            self.wf(),
            0 <= i < self.nodes().len(),
        ensures
            0 <= self.first_with_flags(i, flags) < self.nodes().len(),
        decreases self.rank@[i],
    {
        assert(link_ok(self.nodes@[i].parent_idx, self.nodes@.len() as int));
        if self.nodes@[i].flags.0 & flags.0 == 0 {
            if let Some(p) = self.nodes@[i].parent_idx {
                self.lemma_first_in_range(p as int, flags);
            }
        }
    }

    /// Begins a frame: forgets the draw primitives and capture requests of
    /// the last frame, advances the frame counter, stamps both roots with it,
    /// forgets the hover-capturing control and starts building at the roots.
    pub fn begin_frame(&mut self)
        requires
            old(self).wf(),
        ensures
            final(self).wf(),
            final(self).building(),
            final(self).primitives().len() == 0,
            !final(self).capture_keyboard() && !final(self).capture_mouse(),
            final(self).frame() == (if old(self).frame() == u32::MAX {
                0
            } else {
                old(self).frame() + 1
            }),
            final(self).nodes() == old(self).nodes().update(
                0,
                CtrlNode {
                    last_frame: final(self).frame(),
                    last_frame_in_active_path: final(self).frame(),
                    ..old(self).nodes()[0]
                },
            ).update(
                1,
                CtrlNode {
                    last_frame: final(self).frame(),
                    last_frame_in_active_path: final(self).frame(),
                    ..old(self).nodes()[1]
                },
            ),
            final(self).nodes().len() == old(self).nodes().len(),
            final(self).states() == old(self).states(),
            final(self).payloads() == old(self).payloads(),
            final(self).ranks() == old(self).ranks(),
            final(self).overlay() == old(self).overlay(),
            final(self).hovered_capturing_ctrl() is None,
            final(self).hovered_ctrl() == old(self).hovered_ctrl(),
            final(self).active_ctrl() == old(self).active_ctrl(),
            final(self).pressed() == old(self).pressed(),
            final(self).released() == old(self).released(),
            final(self).texture_id() == old(self).texture_id(),
            final(self).received() == old(self).received(),
            final(self).build_parent() == Some(0usize) && final(self).build_sibling() is None,
            final(self).other_build_parent() == Some(1usize) && final(self).other_build_sibling() is None,
            old(self).consistent() && old(self).all_live() ==> final(self).build_ok(),
    {
        let ghost old_nodes = self.nodes@;
        let ghost old_frame = self.current_frame;
        self.draw_primitives = Vec::new();
        self.want_capture_keyboard = false;
        self.want_capture_mouse = false;
        self.current_frame = self.current_frame.wrapping_add(1);
        let frame = self.current_frame;

        let mut root = self.nodes[0];
        root.last_frame = frame;
        root.last_frame_in_active_path = frame;
        self.nodes.set(0, root);

        let mut overlay_root = self.nodes[1];
        overlay_root.last_frame = frame;
        overlay_root.last_frame_in_active_path = frame;
        self.nodes.set(1, overlay_root);

        self.hovered_capturing_ctrl_idx = None;
        self.build_parent_idx = Some(0);
        self.build_sibling_idx = None;
        self.overlay_build_parent_idx = Some(1);
        self.overlay_build_sibling_idx = None;
        self.frame_open = Ghost(true);
        proof {
            let n = self.nodes@.len() as int;
            assert forall|i: int| 0 <= i < n implies {
                &&& link_ok((#[trigger] self.nodes@[i]).parent_idx, n)
                &&& link_ok(self.nodes@[i].child_idx, n)
                &&& link_ok(self.nodes@[i].sibling_idx, n)
                &&& (self.nodes@[i].parent_idx matches Some(p) ==> self.rank@[p as int]
                    < self.rank@[i])
            } by {
                assert(link_ok(old(self).nodes@[i].parent_idx, n));
            }
            if links_consistent(old_nodes) && old(self).all_live() {
                assert forall|k: int| 0 <= k < old_nodes.len() implies #[trigger] old_nodes[k].last_frame == old_frame by {
                    assert(old(self).live(k));
                }
                crate::building::law_begin_frame_build_ok(old_nodes, self.rank@, old_frame, frame);
            }
        }
    }

    /// Records `hovered` as the hovered control and, walking up from it, the
    /// first control that captures hover (if any) as the hover-capturing
    /// one; capturing hover also requests the mouse.
    pub fn capture_hover(&mut self, hovered: Option<usize>)
        requires
            old(self).wf(),
            hovered matches Some(h) ==> h < old(self).nodes().len(),
        ensures
            final(self).wf(),
            same_tree(*old(self), *final(self)),
            final(self).hovered_ctrl() == hovered,
            ({
                match hovered {
                    Some(h) => {
                        let c = old(self).first_with_flags(h as int, CtrlFlags(2));
                        if old(self).nodes()[c].flags.0 & 2 != 0 {
                            final(self).hovered_capturing_ctrl() == Some(c as usize)
                                && final(self).capture_mouse()
                        } else {
                            final(self).hovered_capturing_ctrl() == old(self).hovered_capturing_ctrl()
                                && final(self).capture_mouse() == old(self).capture_mouse()
                        }
                    },
                    None => final(self).hovered_capturing_ctrl() == old(self).hovered_capturing_ctrl()
                        && final(self).capture_mouse() == old(self).capture_mouse(),
                }
            }),
            final(self).active_ctrl() == old(self).active_ctrl(),
            final(self).pressed() == old(self).pressed(),
            final(self).released() == old(self).released(),
            final(self).capture_keyboard() == old(self).capture_keyboard(),
            final(self).texture_id() == old(self).texture_id(),
            final(self).received() == old(self).received(),
    {
        self.hovered_ctrl_idx = hovered;
        if let Some(h) = hovered {
            let mut idx = h;
            proof {
                self.lemma_first_in_range(h as int, CtrlFlags(2));
            }
            while !self.nodes[idx].flags.intersects(CtrlFlags::capture_hover())
                && self.nodes[idx].parent_idx.is_some()
                invariant
                    self.wf(),
                    idx < self.nodes().len(),
                    self.first_with_flags(idx as int, CtrlFlags(2)) == self.first_with_flags(
                        h as int,
                        CtrlFlags(2),
                    ),
                decreases self.rank@[idx as int],
            {
                proof {
                    self.lemma_ancestors_step(idx as int);
                    assert(link_ok(self.nodes@[idx as int].parent_idx, self.nodes@.len() as int));
                }
                idx = self.nodes[idx].parent_idx.unwrap();
            }
            proof {
                self.lemma_ancestors_step(idx as int);
            }
            if self.nodes[idx].flags.intersects(CtrlFlags::capture_hover()) {
                self.hovered_capturing_ctrl_idx = Some(idx);
                self.want_capture_mouse = true;
            }
        }
    }
}

/// The controls after closing the children of `p`, the last of which is
/// `b`: the chain of siblings ends at `b`, or `p` has no children when none
/// was pushed.
pub open spec fn popped_nodes(nodes: Seq<CtrlNode>, p: int, b: Option<usize>) -> Seq<CtrlNode> {
    match b {
        Some(b) => nodes.update(b as int, with_sibling(nodes[b as int], None)),
        None => nodes.update(p, with_child(nodes[p], None)),
    }
}

/// A control whose flags shrink it to fit its inline content has no
/// children.
pub open spec fn shrink_ok(n: CtrlNode) -> bool {
    n.flags.0 & 0x30 != 0 ==> n.child_idx is None
}

impl<P, D> Ui<P, D> {
    /// A control is being built and can be closed.
    pub open spec fn can_pop(&self) -> bool {
        &&& self.building()
        &&& self.build_parent() is Some
        &&& shrink_ok(self.nodes()[self.build_parent()->0 as int])
    }

    /// The control being built and its parent can be closed one after the
    /// other.
    pub open spec fn can_pop_twice(&self) -> bool {
        let p = self.build_parent()->0 as int;
        &&& self.can_pop()
        &&& self.nodes()[p].parent_idx is Some
        &&& shrink_ok(popped_nodes(self.nodes(), p, self.build_sibling())[self.nodes()[p].parent_idx->0 as int])
    }
}

impl<P, D> Ui<P, D> {
    /// In a well-formed UI there are the two roots at least, every link
    /// (the build positions too, while a frame is built) points at a
    /// control, and each control has its state and payload.
    pub proof fn lemma_wf_links(&self)
        requires
            self.wf(),
        ensures
            2 <= self.nodes().len() <= usize::MAX,
            self.states().len() == self.nodes().len(),
            self.payloads().len() == self.nodes().len(),
            tree_ok(self.nodes(), self.ranks()),
            self.building() ==> {
                &&& link_ok(self.build_parent(), self.nodes().len() as int)
                &&& link_ok(self.build_sibling(), self.nodes().len() as int)
                &&& link_ok(self.other_build_parent(), self.nodes().len() as int)
                &&& link_ok(self.other_build_sibling(), self.nodes().len() as int)
            },
    {
        assert(self.nodes@.len() == self.nodes.len());
    }

    proof fn lemma_walk_links(&self)
        requires
            self.wf(),
        ensures
            walk_links_ok(self.nodes()),
    {
        assert forall|i: int| 0 <= i < self.nodes@.len() implies link_ok(
            (#[trigger] self.nodes@[i]).child_idx,
            self.nodes@.len() as int,
        ) && link_ok(self.nodes@[i].sibling_idx, self.nodes@.len() as int) by {
            assert(link_ok(self.nodes@[i].parent_idx, self.nodes@.len() as int));
        }
    }

    /// The children of control `idx` in the order they are drawn: from the
    /// least to the most recently active for a free layout, else in the
    /// order they were pushed.
    pub fn draw_order(&self, idx: usize) -> (r: Vec<usize>)
        requires
            self.wf(),
            idx < self.nodes().len(),
        ensures
            r@ == draw_order_in(self.nodes(), idx as int),
    {
        proof {
            self.lemma_walk_links();
        }
        draw_order_of(self.nodes.as_slice(), idx)
    }

    /// The control under the cursor in the layer of root `root`, where
    /// `inside[k]` says whether the cursor is inside control `k`.
    pub fn find_hovered(&self, root: usize, inside: &[bool]) -> (r: Option<usize>)
        requires
            self.wf(),
            root < self.nodes().len(),
            inside@.len() == self.nodes().len(),
        ensures
            r == hovered_in(self.nodes(), inside@, root as int, self.nodes().len()),
            r matches Some(h) ==> exists|path: Seq<int>|
                #[trigger] descent(self.nodes(), inside@, path) && path[0] == root && path.last() == h
                    && path.len() <= self.nodes().len() + 1 && (path.len() == self.nodes().len() + 1
                    || none_inside(inside@, hover_order_in(self.nodes(), h as int))),
    {
        proof {
            self.lemma_walk_links();
        }
        hovered_from(self.nodes.as_slice(), inside, root, self.nodes.len())
    }

    /// Finds the hovered control, where `inside[k]` says whether the cursor
    /// is inside control `k`: first in the overlay layer, and when nothing
    /// there captures hover, in the base layer. The control that captures
    /// the hover, if any, requests the mouse.
    pub fn update_hover(&mut self, inside: &[bool])
        requires
            old(self).wf(),
            inside@.len() == old(self).nodes().len(),
        ensures
            final(self).wf(),
            same_tree(*old(self), *final(self)),
            ({
                let nodes = old(self).nodes();
                let rank = old(self).ranks();
                let over = hovered_in(nodes, inside@, 1, nodes.len());
                let base = hovered_in(nodes, inside@, 0, nodes.len());
                if capturing_of(nodes, rank, over) is Some {
                    &&& final(self).hovered_ctrl() == over
                    &&& final(self).hovered_capturing_ctrl() == capturing_of(nodes, rank, over)
                    &&& final(self).capture_mouse()
                } else {
                    &&& final(self).hovered_ctrl() == base
                    &&& final(self).hovered_capturing_ctrl() == capturing_of(nodes, rank, base)
                    &&& final(self).capture_mouse() == (old(self).capture_mouse() || capturing_of(
                        nodes,
                        rank,
                        base,
                    ) is Some)
                }
            }),
            final(self).active_ctrl() == old(self).active_ctrl(),
            final(self).pressed() == old(self).pressed(),
            final(self).released() == old(self).released(),
            final(self).capture_keyboard() == old(self).capture_keyboard(),
            final(self).texture_id() == old(self).texture_id(),
            final(self).received() == old(self).received(),
    {
        self.hovered_capturing_ctrl_idx = None;
        let over = self.find_hovered(1, inside);
        proof {
            assert(self.nodes@.len() == self.nodes.len());
            self.lemma_walk_links();
            crate::walk::law_hovered_inside(self.nodes@, inside@, 1, self.nodes@.len());
        }
        self.capture_hover(over);
        if self.hovered_capturing_ctrl_idx.is_none() {
            let base = self.find_hovered(0, inside);
            proof {
                assert(self.nodes@.len() == self.nodes.len());
                self.lemma_walk_links();
                crate::walk::law_hovered_inside(self.nodes@, inside@, 0, self.nodes@.len());
            }
            self.capture_hover(base);
        }
    }

    /// The control that a scroll goes to, where `can_scroll[k]` says whether
    /// control `k` would take the scroll: the first control from the
    /// hovered one up its ancestors that would, if any.
    pub fn scroll_target(&self, can_scroll: &[bool]) -> (r: Option<usize>)
        requires
            self.wf(),
            can_scroll@.len() == self.nodes().len(),
            self.hovered_ctrl() matches Some(h) ==> h < self.nodes().len(),
        ensures
            r == match self.hovered_ctrl() {
                Some(h) => first_marked_in(self.nodes(), self.ranks(), h as int, can_scroll@),
                None => None,
            },
    {
        match self.hovered_ctrl_idx {
            None => None,
            Some(h) => {
                let mut idx = h;
                while !can_scroll[idx] && self.nodes[idx].parent_idx.is_some()
                    invariant
                        self.wf(),
                        idx < self.nodes().len(),
                        can_scroll@.len() == self.nodes().len(),
                        first_marked_in(self.nodes(), self.ranks(), idx as int, can_scroll@)
                            == first_marked_in(self.nodes(), self.ranks(), h as int, can_scroll@),
                    decreases self.rank@[idx as int],
                {
                    assert(link_ok(self.nodes@[idx as int].parent_idx, self.nodes@.len() as int));
                    idx = self.nodes[idx].parent_idx.unwrap();
                }
                if can_scroll[idx] {
                    Some(idx)
                } else {
                    None
                }
            },
        }
    }
}

/// Relinking keeps every link pointing at a control and leaves parents as
/// they were.
#[verifier::rlimit(40)]
pub proof fn lemma_relinked_ok(nodes: Seq<CtrlNode>, rank: Seq<nat>, parent: int, b: Option<usize>, f: int, prev: Option<usize>, frame: u32, n: usize)
    requires
        tree_ok(nodes, rank),
        0 <= parent < nodes.len(),
        0 <= f < nodes.len(),
        link_ok(prev, nodes.len() as int),
        link_ok(b, nodes.len() as int),
    ensures
        tree_ok(relinked(nodes, parent, b, f, prev, frame, n), rank),
        relinked(nodes, parent, b, f, prev, frame, n).len() == nodes.len(),
        forall|i: int| 0 <= i < nodes.len() ==> #[trigger] relinked(nodes, parent, b, f, prev, frame, n)[i].parent_idx == nodes[i].parent_idx,
{
    let len = nodes.len() as int;
    let t1 = nodes.update(f, CtrlNode { last_frame: frame, draw_range_start: n, draw_range_end: n, ..nodes[f] });
    assert(tree_ok(t1, rank)) by {
        assert forall|i: int| 0 <= i < len implies {
            &&& link_ok((#[trigger] t1[i]).parent_idx, len)
            &&& link_ok(t1[i].child_idx, len)
            &&& link_ok(t1[i].sibling_idx, len)
            &&& (t1[i].parent_idx matches Some(p) ==> rank[p as int] < rank[i])
        } by {
            assert(link_ok(nodes[i].parent_idx, len));
        }
    }
    let t2 = match prev {
        Some(pi) => t1.update(pi as int, with_sibling(t1[pi as int], t1[f].sibling_idx)),
        None => t1,
    };
    assert(tree_ok(t2, rank)) by {
        assert(link_ok(t1[f].parent_idx, len));
        assert forall|i: int| 0 <= i < len implies {
            &&& link_ok((#[trigger] t2[i]).parent_idx, len)
            &&& link_ok(t2[i].child_idx, len)
            &&& link_ok(t2[i].sibling_idx, len)
            &&& (t2[i].parent_idx matches Some(p) ==> rank[p as int] < rank[i])
        } by {
            assert(link_ok(t1[i].parent_idx, len));
        }
    }
    assert(forall|i: int| 0 <= i < len ==> #[trigger] t2[i].parent_idx == nodes[i].parent_idx);
    let r = relinked(nodes, parent, b, f, prev, frame, n);
    match b {
        Some(bi) => {
            assert(link_ok(t2[bi as int].parent_idx, len));
            let nxt = t2[bi as int].sibling_idx;
            if nxt != Some(f as usize) {
                let t3 = t2.update(bi as int, with_sibling(t2[bi as int], Some(f as usize)));
                assert(link_ok(t3[f].parent_idx, len));
                assert forall|i: int| 0 <= i < len implies {
                    &&& link_ok((#[trigger] r[i]).parent_idx, len)
                    &&& link_ok(r[i].child_idx, len)
                    &&& link_ok(r[i].sibling_idx, len)
                    &&& (r[i].parent_idx matches Some(p) ==> rank[p as int] < rank[i])
                    &&& r[i].parent_idx == nodes[i].parent_idx
                } by {
                    assert(link_ok(t2[i].parent_idx, len));
                    assert(link_ok(t3[i].parent_idx, len));
                }
            } else {
                assert forall|i: int| 0 <= i < len implies r[i].parent_idx == nodes[i].parent_idx by {
                    assert(r[i] == t2[i]);
                }
            }
        },
        None => {
            assert(link_ok(t2[parent].parent_idx, len));
            let pc = t2[parent].child_idx;
            if pc != Some(f as usize) {
                let t3 = t2.update(parent, with_child(t2[parent], Some(f as usize)));
                assert(link_ok(t3[f].parent_idx, len));
                assert forall|i: int| 0 <= i < len implies {
                    &&& link_ok((#[trigger] r[i]).parent_idx, len)
                    &&& link_ok(r[i].child_idx, len)
                    &&& link_ok(r[i].sibling_idx, len)
                    &&& (r[i].parent_idx matches Some(p) ==> rank[p as int] < rank[i])
                    &&& r[i].parent_idx == nodes[i].parent_idx
                } by {
                    assert(link_ok(t2[i].parent_idx, len));
                    assert(link_ok(t3[i].parent_idx, len));
                }
            } else {
                assert forall|i: int| 0 <= i < len implies r[i].parent_idx == nodes[i].parent_idx by {
                    assert(r[i] == t2[i]);
                }
            }
        },
    }
}

impl<P, D> Ui<P, D> {
    /// Finds the control `id` among the children of `parent`, with its
    /// predecessor.
    pub fn find_child_idx(&self, parent: usize, id: u32) -> (r: Option<(usize, Option<usize>)>)
        requires
            self.wf(),
            parent < self.nodes().len(),
        ensures
            r == find_child(self.nodes(), parent as int, id),
            r matches Some((f, prev)) ==> f < self.nodes().len() && link_ok(prev, self.nodes().len() as int),
    {
        assert(link_ok(self.nodes@[parent as int].child_idx, self.nodes@.len() as int));
        match self.nodes[parent].child_idx {
            None => None,
            Some(c) => {
                let mut cur = c;
                let mut prev: Option<usize> = None;
                let mut fuel: usize = self.nodes.len();
                loop
                    invariant
                        self.wf(),
                        cur < self.nodes().len(),
                        link_ok(prev, self.nodes().len() as int),
                        find_child(self.nodes(), parent as int, id) == find_in_chain(
                            self.nodes(),
                            cur as int,
                            prev,
                            id,
                            fuel as nat,
                        ),
                    decreases fuel,
                {
                    assert(link_ok(self.nodes@[cur as int].sibling_idx, self.nodes@.len() as int));
                    if self.nodes[cur].id == id {
                        return Some((cur, prev));
                    }
                    match self.nodes[cur].sibling_idx {
                        None => {
                            return None;
                        },
                        Some(sib) => {
                            if fuel == 0 {
                                return None;
                            }
                            prev = Some(cur);
                            cur = sib;
                            fuel = fuel - 1;
                        },
                    }
                }
            },
        }
    }

    #[verifier::rlimit(60)]
    fn relink_found(&mut self, parent: usize, f: usize, prev: Option<usize>, frame: u32, n: usize)
        requires
            old(self).wf(),
            old(self).building(),
            parent < old(self).nodes().len(),
            f < old(self).nodes().len(),
            link_ok(prev, old(self).nodes().len() as int),
            link_ok(old(self).build_sibling(), old(self).nodes().len() as int),
        ensures
            final(self).wf(),
            final(self).building(),
            final(self).nodes() == relinked(old(self).nodes(), parent as int, old(self).build_sibling(), f as int, prev, frame, n),
            final(self).states() == old(self).states(),
            final(self).payloads() == old(self).payloads(),
            final(self).ranks() == old(self).ranks(),
            final(self).build_parent() == old(self).build_parent(),
            final(self).build_sibling() == old(self).build_sibling(),
            final(self).other_build_parent() == old(self).other_build_parent(),
            final(self).other_build_sibling() == old(self).other_build_sibling(),
            final(self).overlay() == old(self).overlay(),
            final(self).frame() == old(self).frame(),
            final(self).primitives() == old(self).primitives(),
            same_status(*old(self), *final(self)),
    {
        let ghost old_nodes = self.nodes@;
        let ghost len = self.nodes@.len() as int;
        let mut node = self.nodes[f];
        node.last_frame = frame;
        node.draw_range_start = n;
        node.draw_range_end = n;
        self.nodes.set(f, node);
        if let Some(pi) = prev {
            let mut pn = self.nodes[pi];
            pn.sibling_idx = self.nodes[f].sibling_idx;
            self.nodes.set(pi, pn);
        }
        match self.build_sibling_idx {
            Some(bi) => {
                let nxt = self.nodes[bi].sibling_idx;
                if nxt != Some(f) {
                    let mut bn = self.nodes[bi];
                    bn.sibling_idx = Some(f);
                    self.nodes.set(bi, bn);
                    let mut fnode = self.nodes[f];
                    fnode.sibling_idx = nxt;
                    self.nodes.set(f, fnode);
                }
            },
            None => {
                let pc = self.nodes[parent].child_idx;
                if pc != Some(f) {
                    let mut pn = self.nodes[parent];
                    pn.child_idx = Some(f);
                    self.nodes.set(parent, pn);
                    let mut fnode = self.nodes[f];
                    fnode.sibling_idx = pc;
                    self.nodes.set(f, fnode);
                }
            },
        }
        proof {
            assert(self.nodes@ =~= relinked(old_nodes, parent as int, old(self).build_sibling_idx, f as int, prev, frame, n));
            lemma_relinked_ok(old_nodes, self.rank@, parent as int, old(self).build_sibling_idx, f as int, prev, frame, n);
        }
    }

    fn append_new(&mut self, parent: usize, id: u32, payload: P, frame: u32, n: usize) -> (r: usize)
        requires
            old(self).wf(),
            old(self).building(),
            parent < old(self).nodes().len(),
            old(self).nodes().len() < usize::MAX,
            link_ok(old(self).build_sibling(), old(self).nodes().len() as int),
        ensures
            final(self).wf(),
            final(self).building(),
            r == old(self).nodes().len(),
            final(self).nodes() == appended(old(self).nodes(), parent as int, old(self).build_sibling(), id, frame, n),
            final(self).states().len() == old(self).states().len() + 1,
            final(self).states().subrange(0, r as int) == old(self).states(),
            final(self).states()[r as int]@ == Seq::new(64, |j: int| 0u8),
            final(self).payloads() == old(self).payloads().push(payload),
            final(self).ranks() == old(self).ranks().push(old(self).ranks()[parent as int] + 1),
            final(self).build_parent() == old(self).build_parent(),
            final(self).build_sibling() == old(self).build_sibling(),
            final(self).other_build_parent() == old(self).other_build_parent(),
            final(self).other_build_sibling() == old(self).other_build_sibling(),
            final(self).overlay() == old(self).overlay(),
            final(self).frame() == old(self).frame(),
            final(self).primitives() == old(self).primitives(),
            same_status(*old(self), *final(self)),
    {
        let ghost old_nodes = self.nodes@;
        let ghost len = self.nodes@.len() as int;
        let idx = self.nodes.len();
        let sibling = match self.build_sibling_idx {
            Some(bi) => {
                let mut bn = self.nodes[bi];
                let nxt = bn.sibling_idx;
                bn.sibling_idx = Some(idx);
                self.nodes.set(bi, bn);
                nxt
            },
            None => {
                let mut pn = self.nodes[parent];
                let pc = pn.child_idx;
                pn.child_idx = Some(idx);
                self.nodes.set(parent, pn);
                pc
            },
        };
        self.nodes.push(make_node(id, Some(parent), sibling, frame, n));
        self.states.push([0u8; 64]);
        self.payloads.push(payload);
        let ghost new_rank = self.rank@.push(self.rank@[parent as int] + 1);
        self.rank = Ghost(new_rank);
        proof {
            assert(self.nodes@ =~= appended(old_nodes, parent as int, old(self).build_sibling_idx, id, frame, n));
            assert(self.states@.subrange(0, idx as int) =~= old(self).states@);
            let nl = len + 1;
            assert forall|i: int| 0 <= i < nl implies {
                &&& link_ok((#[trigger] self.nodes@[i]).parent_idx, nl)
                &&& link_ok(self.nodes@[i].child_idx, nl)
                &&& link_ok(self.nodes@[i].sibling_idx, nl)
                &&& (self.nodes@[i].parent_idx matches Some(p) ==> self.rank@[p as int]
                    < self.rank@[i])
            } by {
                if i < len {
                    assert(link_ok(old_nodes[i].parent_idx, len));
                    assert(link_ok(old_nodes[i].child_idx, len));
                    assert(link_ok(old_nodes[i].sibling_idx, len));
                    assert(self.nodes@[i].parent_idx == old_nodes[i].parent_idx);
                }
            }
            assert(link_ok(self.overlay_build_parent_idx, len));
        }
        idx
    }

    /// Pushes the control `id` as the next child of the build parent and
    /// makes it the build parent: an existing child of that id is stamped
    /// with the frame, given an empty draw range and moved after the build
    /// sibling; otherwise a new control with `payload` is appended to the
    /// tree and linked there. Returns the index of the control.
    pub fn push_ctrl(&mut self, id: u32, payload: P) -> (r: usize)
        requires
            old(self).wf(),
            old(self).building(),
            old(self).build_parent() is Some,
            old(self).nodes().len() < usize::MAX,
            find_child(old(self).nodes(), old(self).build_parent()->0 as int, id) matches Some(
                (f, _),
            ) ==> old(self).nodes()[f as int].last_frame != old(self).frame(),
        ensures
            final(self).wf(),
            final(self).building(),
            ({
                let parent = old(self).build_parent()->0 as int;
                let b = old(self).build_sibling();
                let n = old(self).primitives().len() as usize;
                let frame = old(self).frame();
                match find_child(old(self).nodes(), parent, id) {
                    Some((f, prev)) => {
                        &&& r == f
                        &&& final(self).nodes() == relinked(old(self).nodes(), parent, b, f as int, prev, frame, n)
                        &&& final(self).states() == old(self).states()
                        &&& final(self).payloads() == old(self).payloads()
                    },
                    None => {
                        &&& r == old(self).nodes().len()
                        &&& final(self).nodes() == appended(old(self).nodes(), parent, b, id, frame, n)
                        &&& final(self).states().len() == old(self).states().len() + 1
                        &&& final(self).states().subrange(0, r as int) == old(self).states()
                        &&& final(self).states()[r as int]@ == Seq::new(64, |j: int| 0u8)
                        &&& final(self).payloads() == old(self).payloads().push(payload)
                    },
                }
            }),
            final(self).build_parent() == Some(r),
            final(self).build_sibling() is None,
            r <= old(self).nodes().len(),
            final(self).nodes().len() == if r == old(self).nodes().len() {
                old(self).nodes().len() + 1
            } else {
                old(self).nodes().len()
            },
            final(self).other_build_parent() == old(self).other_build_parent(),
            final(self).other_build_sibling() == old(self).other_build_sibling(),
            final(self).overlay() == old(self).overlay(),
            final(self).frame() == old(self).frame(),
            final(self).primitives() == old(self).primitives(),
            same_status(*old(self), *final(self)),
            old(self).build_ok() ==> final(self).build_ok(),
            old(self).consistent() ==> final(self).nodes()[r as int].parent_idx == old(self).build_parent(),
    {
        let parent = self.build_parent_idx.unwrap();
        let n = self.draw_primitives.len();
        let frame = self.current_frame;
        let ghost old_nodes = self.nodes@;
        let ghost len = self.nodes@.len() as int;
        let found = self.find_child_idx(parent, id);
        assert(link_ok(self.build_sibling_idx, self.nodes@.len() as int));
        let current = match found {
            Some((f, prev)) => {
                self.relink_found(parent, f, prev, frame, n);
                f
            },
            None => self.append_new(parent, id, payload, frame, n),
        };
        self.build_parent_idx = Some(current);
        self.build_sibling_idx = None;
        proof {
            if links_consistent(old_nodes) {
                assert(old_nodes.len() == old(self).nodes.len());
                crate::building::lemma_find_child(old_nodes, old(self).rank@, parent as int, id);
            }
            if old(self).build_ok() {
                let old_rank = old(self).rank@;
                match found {
                    Some((f, prev)) => {
                        crate::building::law_push_found_build_ok(
                            old_nodes,
                            old_rank,
                            frame,
                            parent,
                            old(self).build_sibling_idx,
                            old(self).overlay_build_parent_idx,
                            old(self).overlay_build_sibling_idx,
                            id,
                            n,
                        );
                    },
                    None => {
                        crate::building::law_push_new_build_ok(
                            old_nodes,
                            old_rank,
                            frame,
                            parent,
                            old(self).build_sibling_idx,
                            old(self).overlay_build_parent_idx,
                            old(self).overlay_build_sibling_idx,
                            id,
                            n,
                        );
                    },
                }
            }
        }
        current
    }

    /// Finishes the build parent: a build parent that shrinks to its inline
    /// contents must not have children. The last control pushed under it is
    /// cut from the controls that followed it in earlier frames (or, when
    /// none was pushed, the build parent loses its children), and building
    /// goes on after it under its own parent.
    pub fn pop_ctrl(&mut self)
        requires
            old(self).wf(),
            old(self).can_pop(),
        ensures
            final(self).wf(),
            final(self).building(),
            ({
                let p = old(self).build_parent()->0 as int;
                &&& final(self).nodes() == popped_nodes(old(self).nodes(), p, old(self).build_sibling())
                &&& final(self).build_parent() == old(self).nodes()[p].parent_idx
                &&& final(self).build_sibling() == Some(p as usize)
            }),
            final(self).states() == old(self).states(),
            final(self).payloads() == old(self).payloads(),
            final(self).ranks() == old(self).ranks(),
            final(self).primitives() == old(self).primitives(),
            final(self).frame() == old(self).frame(),
            final(self).overlay() == old(self).overlay(),
            final(self).other_build_parent() == old(self).other_build_parent(),
            final(self).other_build_sibling() == old(self).other_build_sibling(),
            same_status(*old(self), *final(self)),
            old(self).build_ok() ==> final(self).build_ok(),
    {
        let p = self.build_parent_idx.unwrap();
        proof {
            assert(self.nodes@.len() == self.nodes.len());
            if old(self).build_ok() {
                crate::building::law_pop_build_ok(
                    self.nodes@,
                    self.rank@,
                    self.current_frame,
                    p,
                    self.build_sibling_idx,
                    self.overlay_build_parent_idx,
                    self.overlay_build_sibling_idx,
                );
            }
        }
        let ghost len = self.nodes@.len() as int;
        let ghost old_nodes = self.nodes@;
        assert(link_ok(self.nodes@[p as int].parent_idx, len));
        let pp = self.nodes[p].parent_idx;
        match self.build_sibling_idx {
            Some(b) => {
                let mut bn = self.nodes[b];
                bn.sibling_idx = None;
                self.nodes.set(b, bn);
            },
            None => {
                let mut pn = self.nodes[p];
                pn.child_idx = None;
                self.nodes.set(p, pn);
            },
        }
        self.build_parent_idx = pp;
        self.build_sibling_idx = Some(p);
        proof {
            assert forall|i: int| 0 <= i < len implies {
                &&& link_ok((#[trigger] self.nodes@[i]).parent_idx, len)
                &&& link_ok(self.nodes@[i].child_idx, len)
                &&& link_ok(self.nodes@[i].sibling_idx, len)
                &&& (self.nodes@[i].parent_idx matches Some(q) ==> self.rank@[q as int]
                    < self.rank@[i])
            } by {
                assert(link_ok(old_nodes[i].parent_idx, len));
                assert(self.nodes@[i].parent_idx == old_nodes[i].parent_idx);
            }
        }
    }

    /// Starts building the overlay layer, where building stopped last.
    pub fn begin_overlay(&mut self)
        requires
            old(self).wf(),
            !old(self).overlay(),
        ensures
            final(self).wf(),
            final(self).overlay(),
            final(self).build_parent() == old(self).other_build_parent(),
            final(self).build_sibling() == old(self).other_build_sibling(),
            final(self).other_build_parent() == old(self).build_parent(),
            final(self).other_build_sibling() == old(self).build_sibling(),
            final(self).nodes() == old(self).nodes(),
            final(self).states() == old(self).states(),
            final(self).payloads() == old(self).payloads(),
            final(self).ranks() == old(self).ranks(),
            final(self).primitives() == old(self).primitives(),
            final(self).frame() == old(self).frame(),
            final(self).building() == old(self).building(),
            same_status(*old(self), *final(self)),
            old(self).build_ok() ==> final(self).build_ok(),
    {
        proof {
            if old(self).build_ok() {
                crate::building::law_swap_layers_build_ok(
                    self.nodes@,
                    self.rank@,
                    self.current_frame,
                    self.build_parent_idx,
                    self.build_sibling_idx,
                    self.overlay_build_parent_idx,
                    self.overlay_build_sibling_idx,
                );
            }
        }
        core::mem::swap(&mut self.build_parent_idx, &mut self.overlay_build_parent_idx);
        core::mem::swap(&mut self.build_sibling_idx, &mut self.overlay_build_sibling_idx);
        self.building_overlay = true;
    }

    /// Goes back to building the base layer, where building stopped last.
    pub fn end_overlay(&mut self)
        requires
            old(self).wf(),
            old(self).overlay(),
        ensures
            final(self).wf(),
            !final(self).overlay(),
            final(self).build_parent() == old(self).other_build_parent(),
            final(self).build_sibling() == old(self).other_build_sibling(),
            final(self).other_build_parent() == old(self).build_parent(),
            final(self).other_build_sibling() == old(self).build_sibling(),
            final(self).nodes() == old(self).nodes(),
            final(self).states() == old(self).states(),
            final(self).payloads() == old(self).payloads(),
            final(self).ranks() == old(self).ranks(),
            final(self).primitives() == old(self).primitives(),
            final(self).frame() == old(self).frame(),
            final(self).building() == old(self).building(),
            same_status(*old(self), *final(self)),
            old(self).build_ok() ==> final(self).build_ok(),
    {
        proof {
            if old(self).build_ok() {
                crate::building::law_swap_layers_build_ok(
                    self.nodes@,
                    self.rank@,
                    self.current_frame,
                    self.build_parent_idx,
                    self.build_sibling_idx,
                    self.overlay_build_parent_idx,
                    self.overlay_build_sibling_idx,
                );
            }
        }
        core::mem::swap(&mut self.build_parent_idx, &mut self.overlay_build_parent_idx);
        core::mem::swap(&mut self.build_sibling_idx, &mut self.overlay_build_sibling_idx);
        self.building_overlay = false;
    }
}

pub proof fn lemma_anc_step(nodes: Seq<CtrlNode>, rank: Seq<nat>, i: int)
    requires
        tree_ok(nodes, rank),
        0 <= i < nodes.len(),
    ensures
        ancestors_in(nodes, rank, i).contains(i),
        nodes[i].parent_idx matches Some(p) ==> ancestors_in(nodes, rank, i) == ancestors_in(nodes, rank, p as int).insert(i),
        nodes[i].parent_idx is None ==> ancestors_in(nodes, rank, i) == set![i],
        forall|j: int| #[trigger] ancestors_in(nodes, rank, i).contains(j) ==> 0 <= j < nodes.len() && rank[j] <= rank[i],
    decreases rank[i],
{
    assert(link_ok(nodes[i].parent_idx, nodes.len() as int));
    if let Some(p) = nodes[i].parent_idx {
        lemma_anc_step(nodes, rank, p as int);
    }
}

impl<P, D> Ui<P, D> {
    /// Stamps `start` and its ancestors as being in the active path in this
    /// frame.
    fn stamp_path(&mut self, start: usize)
        requires
            old(self).wf(),
            start < old(self).nodes().len(),
        ensures
            final(self).wf(),
            stamped(old(self).nodes(), final(self).nodes(), old(self).ancestors(start as int), old(self).frame()),
            final(self).states() == old(self).states(),
            final(self).payloads() == old(self).payloads(),
            final(self).ranks() == old(self).ranks(),
            final(self).primitives() == old(self).primitives(),
            final(self).frame() == old(self).frame(),
            final(self).building() == old(self).building(),
            final(self).overlay() == old(self).overlay(),
            final(self).build_parent() == old(self).build_parent(),
            final(self).build_sibling() == old(self).build_sibling(),
            final(self).other_build_parent() == old(self).other_build_parent(),
            final(self).other_build_sibling() == old(self).other_build_sibling(),
            same_status(*old(self), *final(self)),
    {
        let frame = self.current_frame;
        let ghost old_nodes = self.nodes@;
        let ghost rank = self.rank@;
        let ghost len = self.nodes@.len() as int;
        let ghost mut done: Set<int> = Set::empty();
        let mut idx = start;
        proof {
            lemma_anc_step(old_nodes, rank, start as int);
        }
        loop
            invariant_except_break
                idx < len,
                ancestors_in(old_nodes, rank, start as int) == done.union(ancestors_in(old_nodes, rank, idx as int)),
                forall|d: int| #[trigger] done.contains(d) ==> rank[d] > rank[idx as int],
                stamped(old_nodes, self.nodes@, done, frame),
            invariant
                self.wf(),
                self.nodes@.len() == len,
                old_nodes.len() == len,
                tree_ok(old_nodes, rank),
                self.rank@ == rank,
                self.current_frame == frame,
                forall|k: int| 0 <= k < len ==> (#[trigger] self.nodes@[k]).parent_idx == old_nodes[k].parent_idx,
                self.states@ == old(self).states@,
                self.payloads@ == old(self).payloads@,
                self.draw_primitives@ == old(self).draw_primitives@,
                self.frame_open == old(self).frame_open,
                self.building_overlay == old(self).building_overlay,
                self.build_parent_idx == old(self).build_parent_idx,
                self.build_sibling_idx == old(self).build_sibling_idx,
                self.overlay_build_parent_idx == old(self).overlay_build_parent_idx,
                self.overlay_build_sibling_idx == old(self).overlay_build_sibling_idx,
                same_status(*old(self), *self),
            ensures
                self.wf(),
                stamped(old_nodes, self.nodes@, ancestors_in(old_nodes, rank, start as int), frame),
                self.rank@ == rank,
                self.current_frame == frame,
                self.states@ == old(self).states@,
                self.payloads@ == old(self).payloads@,
                self.draw_primitives@ == old(self).draw_primitives@,
                self.frame_open == old(self).frame_open,
                self.building_overlay == old(self).building_overlay,
                self.build_parent_idx == old(self).build_parent_idx,
                self.build_sibling_idx == old(self).build_sibling_idx,
                self.overlay_build_parent_idx == old(self).overlay_build_parent_idx,
                self.overlay_build_sibling_idx == old(self).overlay_build_sibling_idx,
                same_status(*old(self), *self),
            decreases rank[idx as int],
        {
            proof {
                lemma_anc_step(old_nodes, rank, idx as int);
                assert(!done.contains(idx as int));
                assert(self.nodes@[idx as int] == old_nodes[idx as int]);
            }
            let mut node = self.nodes[idx];
            node.last_frame_in_active_path = frame;
            self.nodes.set(idx, node);
            proof {
                done = done.insert(idx as int);
                assert forall|k: int| 0 <= k < len implies {
                    &&& link_ok((#[trigger] self.nodes@[k]).parent_idx, len)
                    &&& link_ok(self.nodes@[k].child_idx, len)
                    &&& link_ok(self.nodes@[k].sibling_idx, len)
                    &&& (self.nodes@[k].parent_idx matches Some(q) ==> rank[q as int] < rank[k])
                } by {
                    assert(link_ok(old_nodes[k].parent_idx, len));
                }
                assert(link_ok(old_nodes[idx as int].parent_idx, len));
            }
            match node.parent_idx {
                Some(p) => {
                    proof {
                        assert(ancestors_in(old_nodes, rank, start as int) =~= done.union(ancestors_in(old_nodes, rank, p as int)));
                    }
                    idx = p;
                },
                None => {
                    proof {
                        assert(ancestors_in(old_nodes, rank, start as int) =~= done);
                    }
                    break;
                },
            }
        }
    }

    /// Makes the control at `idx` active, stamping it and its ancestors as
    /// being in the active path. Making the active control inactive hands
    /// activity to its first ancestor that captures it (stamping that one's
    /// path), or to nobody.
    pub fn set_active(&mut self, idx: usize, active: bool)
        requires
            old(self).wf(),
            idx < old(self).nodes().len(),
        ensures
            final(self).wf(),
            ({
                let frame = old(self).frame();
                if active {
                    &&& final(self).active_ctrl() == Some(idx)
                    &&& stamped(old(self).nodes(), final(self).nodes(), old(self).ancestors(idx as int), frame)
                } else if old(self).active_ctrl() == Some(idx) && old(self).nodes()[idx as int].parent_idx is Some {
                    let c = old(self).first_with_flags(old(self).nodes()[idx as int].parent_idx->0 as int, CtrlFlags(4));
                    if old(self).nodes()[c].flags.0 & 4 != 0 {
                        &&& final(self).active_ctrl() == Some(c as usize)
                        &&& stamped(old(self).nodes(), final(self).nodes(), old(self).ancestors(c), frame)
                    } else {
                        &&& final(self).active_ctrl() is None
                        &&& final(self).nodes() == old(self).nodes()
                    }
                } else {
                    &&& final(self).active_ctrl() == old(self).active_ctrl()
                    &&& final(self).nodes() == old(self).nodes()
                }
            }),
            final(self).states() == old(self).states(),
            final(self).payloads() == old(self).payloads(),
            final(self).ranks() == old(self).ranks(),
            final(self).primitives() == old(self).primitives(),
            final(self).frame() == old(self).frame(),
            final(self).building() == old(self).building(),
            final(self).overlay() == old(self).overlay(),
            final(self).build_parent() == old(self).build_parent(),
            final(self).build_sibling() == old(self).build_sibling(),
            final(self).other_build_parent() == old(self).other_build_parent(),
            final(self).other_build_sibling() == old(self).other_build_sibling(),
            final(self).pressed() == old(self).pressed(),
            final(self).released() == old(self).released(),
            final(self).hovered_ctrl() == old(self).hovered_ctrl(),
            final(self).hovered_capturing_ctrl() == old(self).hovered_capturing_ctrl(),
            final(self).capture_keyboard() == old(self).capture_keyboard(),
            final(self).capture_mouse() == old(self).capture_mouse(),
            final(self).texture_id() == old(self).texture_id(),
            final(self).received() == old(self).received(),
            old(self).build_ok() ==> final(self).build_ok(),
    {
        let ghost old_nodes = self.nodes@;
        if active {
            self.active_ctrl_idx = Some(idx);
            self.stamp_path(idx);
        } else if let Some(current) = self.active_ctrl_idx {
            if current == idx {
                assert(link_ok(self.nodes@[idx as int].parent_idx, self.nodes@.len() as int));
                if let Some(p) = self.nodes[idx].parent_idx {
                    let mut c = p;
                    while !self.nodes[c].flags.intersects(CtrlFlags::capture_active())
                        && self.nodes[c].parent_idx.is_some()
                        invariant
                            self.wf(),
                            c < self.nodes().len(),
                            self.first_with_flags(c as int, CtrlFlags(4)) == self.first_with_flags(
                                p as int,
                                CtrlFlags(4),
                            ),
                        decreases self.rank@[c as int],
                    {
                        proof {
                            self.lemma_ancestors_step(c as int);
                            assert(link_ok(self.nodes@[c as int].parent_idx, self.nodes@.len() as int));
                        }
                        c = self.nodes[c].parent_idx.unwrap();
                    }
                    proof {
                        self.lemma_ancestors_step(c as int);
                    }
                    if self.nodes[c].flags.intersects(CtrlFlags::capture_active()) {
                        self.active_ctrl_idx = Some(c);
                        self.stamp_path(c);
                    } else {
                        self.active_ctrl_idx = None;
                    }
                }
            }
        }
        proof {
            if old(self).build_ok() {
                assert forall|k: int| 0 <= k < old_nodes.len() implies {
                    &&& (#[trigger] self.nodes@[k]).parent_idx == old_nodes[k].parent_idx
                    &&& self.nodes@[k].child_idx == old_nodes[k].child_idx
                    &&& self.nodes@[k].sibling_idx == old_nodes[k].sibling_idx
                    &&& self.nodes@[k].last_frame == old_nodes[k].last_frame
                } by {}
                crate::building::lemma_same_skeleton_build_ok(
                    old_nodes,
                    self.nodes@,
                    self.rank@,
                    self.current_frame,
                    self.build_parent_idx,
                    self.build_sibling_idx,
                    self.overlay_build_parent_idx,
                    self.overlay_build_sibling_idx,
                );
            }
        }
    }
}

/// `a` and `b` differ at most in their nodes.
pub open spec fn same_but_nodes<P, D>(a: Ui<P, D>, b: Ui<P, D>) -> bool {
    &&& a.states() == b.states()
    &&& a.payloads() == b.payloads()
    &&& a.primitives() == b.primitives()
    &&& a.ranks() == b.ranks()
    &&& a.frame() == b.frame()
    &&& a.building() == b.building()
    &&& a.overlay() == b.overlay()
    &&& a.build_parent() == b.build_parent()
    &&& a.build_sibling() == b.build_sibling()
    &&& a.other_build_parent() == b.other_build_parent()
    &&& a.other_build_sibling() == b.other_build_sibling()
    &&& same_status(a, b)
}

/// What relocating link value `x` by the first `j` relocations in `rels`
/// gives: each relocation `(src, dst)` turns `src` into `dst`.
pub open spec fn apply_rels(rels: Seq<(usize, usize)>, j: int, x: usize) -> usize
    decreases j,
{
    if j <= 0 {
        x
    } else {
        let y = apply_rels(rels, j - 1, x);
        if y == rels[j - 1].0 {
            rels[j - 1].1
        } else {
            y
        }
    }
}

pub open spec fn apply_rels_link(rels: Seq<(usize, usize)>, j: int, link: Option<usize>) -> Option<usize> {
    match link {
        Some(x) => Some(apply_rels(rels, j, x)),
        None => None,
    }
}

pub open spec fn apply_rels_node(rels: Seq<(usize, usize)>, j: int, n: CtrlNode) -> CtrlNode {
    CtrlNode {
        parent_idx: apply_rels_link(rels, j, n.parent_idx),
        child_idx: apply_rels_link(rels, j, n.child_idx),
        sibling_idx: apply_rels_link(rels, j, n.sibling_idx),
        ..n
    }
}

/// The link `link` after the compaction that moved control `i` to `pos[i]`.
pub open spec fn map_link(link: Option<usize>, pos: Seq<int>) -> Option<usize> {
    match link {
        Some(x) => Some(pos[x as int] as usize),
        None => None,
    }
}

/// The control `n` with its links moved by `pos`.
pub open spec fn moved_node(n: CtrlNode, pos: Seq<int>) -> CtrlNode {
    CtrlNode {
        parent_idx: map_link(n.parent_idx, pos),
        child_idx: map_link(n.child_idx, pos),
        sibling_idx: map_link(n.sibling_idx, pos),
        ..n
    }
}

/// How many controls of `nodes` were pushed in frame `frame`.
pub open spec fn live_count(nodes: Seq<CtrlNode>, frame: u32) -> nat {
    vstd::set_lib::set_int_range(0, nodes.len() as int).filter(|i: int| live_in(nodes, frame, i)).len()
}

/// Control `i` of `nodes` was pushed in frame `frame`.
pub open spec fn live_in(nodes: Seq<CtrlNode>, frame: u32, i: int) -> bool {
    nodes[i].last_frame == frame
}

/// The controls `new_nodes` (with their states and payloads) are exactly
/// the controls of `old_nodes` pushed in `frame`, control `i` moved to
/// `pos[i]` with its links moved along; the roots stay in place.
pub open spec fn compacted_seqs<P>(
    old_nodes: Seq<CtrlNode>,
    old_states: Seq<CtrlState>,
    old_payloads: Seq<P>,
    frame: u32,
    new_nodes: Seq<CtrlNode>,
    new_states: Seq<CtrlState>,
    new_payloads: Seq<P>,
    pos: Seq<int>,
) -> bool {
    let n = old_nodes.len() as int;
    &&& pos.len() == n
    &&& new_nodes.len() == new_states.len() == new_payloads.len()
    &&& forall|i: int|
        0 <= i < n && #[trigger] live_in(old_nodes, frame, i) ==> {
            &&& 0 <= pos[i] < new_nodes.len()
            &&& new_nodes[pos[i]] == moved_node(old_nodes[i], pos)
            &&& new_states[pos[i]] == old_states[i]
            &&& new_payloads[pos[i]] == old_payloads[i]
        }
    &&& forall|i: int, j: int|
        0 <= i < n && 0 <= j < n && live_in(old_nodes, frame, i) && live_in(old_nodes, frame, j) && i
            != j ==> #[trigger] pos[i] != #[trigger] pos[j]
    &&& forall|k: int| 0 <= k < new_nodes.len() ==> #[trigger] moved_to(old_nodes, frame, pos, k)
    &&& pos[0] == 0 && pos[1] == 1
}

/// Some control of `old_nodes` pushed in `frame` was moved to index `k`.
pub open spec fn moved_to(old_nodes: Seq<CtrlNode>, frame: u32, pos: Seq<int>, k: int) -> bool {
    exists|i: int| #![trigger pos[i]] 0 <= i < old_nodes.len() && live_in(old_nodes, frame, i) && pos[i] == k
}

/// `new` holds exactly the live controls of `old`, control `i` moved to
/// `pos[i]` with its links moved along; the roots stay in place.
pub open spec fn compacted<P, D>(old: Ui<P, D>, new: Ui<P, D>, pos: Seq<int>) -> bool {
    compacted_seqs(
        old.nodes(),
        old.states(),
        old.payloads(),
        old.frame(),
        new.nodes(),
        new.states(),
        new.payloads(),
        pos,
    )
}

impl<P, D> Ui<P, D> {
    /// Replaces a control's settings, keeping its links.
    fn replace_node(&mut self, idx: usize, node: CtrlNode)
        requires
            old(self).wf(),
            idx < old(self).nodes().len(),
            node.parent_idx == old(self).nodes()[idx as int].parent_idx,
            node.child_idx == old(self).nodes()[idx as int].child_idx,
            node.sibling_idx == old(self).nodes()[idx as int].sibling_idx,
            node.last_frame == old(self).nodes()[idx as int].last_frame,
        ensures
            final(self).wf(),
            final(self).nodes() == old(self).nodes().update(idx as int, node),
            same_but_nodes(*old(self), *final(self)),
            old(self).build_ok() ==> final(self).build_ok(),
    {
        let ghost len = self.nodes@.len() as int;
        let ghost old_nodes = self.nodes@;
        self.nodes.set(idx, node);
        proof {
            if old(self).build_ok() {
                crate::building::lemma_same_skeleton_build_ok(
                    old_nodes,
                    self.nodes@,
                    self.rank@,
                    self.current_frame,
                    self.build_parent_idx,
                    self.build_sibling_idx,
                    self.overlay_build_parent_idx,
                    self.overlay_build_sibling_idx,
                );
            }
            assert forall|k: int| 0 <= k < len implies {
                &&& link_ok((#[trigger] self.nodes@[k]).parent_idx, len)
                &&& link_ok(self.nodes@[k].child_idx, len)
                &&& link_ok(self.nodes@[k].sibling_idx, len)
                &&& (self.nodes@[k].parent_idx matches Some(q) ==> self.rank@[q as int] < self.rank@[k])
            } by {
                assert(link_ok(old_nodes[k].parent_idx, len));
            }
        }
    }

    pub fn set_flags(&mut self, idx: usize, flags: CtrlFlags)
        requires
            old(self).wf(),
            idx < old(self).nodes().len(),
        ensures
            final(self).wf(),
            final(self).nodes() == old(self).nodes().update(idx as int, CtrlNode { flags: flags, ..old(self).nodes()[idx as int] }),
            same_but_nodes(*old(self), *final(self)),
            old(self).build_ok() ==> final(self).build_ok(),
    {
        let mut node = self.nodes[idx];
        node.flags = flags;
        self.replace_node(idx, node);
    }

    pub fn set_layout(&mut self, idx: usize, layout: Layout)
        requires
            old(self).wf(),
            idx < old(self).nodes().len(),
        ensures
            final(self).wf(),
            final(self).nodes() == old(self).nodes().update(idx as int, CtrlNode { layout: layout, ..old(self).nodes()[idx as int] }),
            same_but_nodes(*old(self), *final(self)),
            old(self).build_ok() ==> final(self).build_ok(),
    {
        let mut node = self.nodes[idx];
        node.layout = layout;
        self.replace_node(idx, node);
    }

    pub fn set_draw_self(&mut self, idx: usize, draw_self: bool)
        requires
            old(self).wf(),
            idx < old(self).nodes().len(),
        ensures
            final(self).wf(),
            final(self).nodes() == old(self).nodes().update(idx as int, CtrlNode { draw_self: draw_self, ..old(self).nodes()[idx as int] }),
            same_but_nodes(*old(self), *final(self)),
            old(self).build_ok() ==> final(self).build_ok(),
    {
        let mut node = self.nodes[idx];
        node.draw_self = draw_self;
        self.replace_node(idx, node);
    }

    pub fn set_draw_self_border_color(&mut self, idx: usize, border_color: u32)
        requires
            old(self).wf(),
            idx < old(self).nodes().len(),
        ensures
            final(self).wf(),
            final(self).nodes() == old(self).nodes().update(idx as int, CtrlNode { draw_self_border_color: border_color, ..old(self).nodes()[idx as int] }),
            same_but_nodes(*old(self), *final(self)),
            old(self).build_ok() ==> final(self).build_ok(),
    {
        let mut node = self.nodes[idx];
        node.draw_self_border_color = border_color;
        self.replace_node(idx, node);
    }

    pub fn set_draw_self_background_color(&mut self, idx: usize, background_color: u32)
        requires
            old(self).wf(),
            idx < old(self).nodes().len(),
        ensures
            final(self).wf(),
            final(self).nodes() == old(self).nodes().update(idx as int, CtrlNode { draw_self_background_color: background_color, ..old(self).nodes()[idx as int] }),
            same_but_nodes(*old(self), *final(self)),
            old(self).build_ok() ==> final(self).build_ok(),
    {
        let mut node = self.nodes[idx];
        node.draw_self_background_color = background_color;
        self.replace_node(idx, node);
    }

    /// Whether the build parent is the control that captures hover.
    pub fn hovered(&self) -> (r: bool)
        ensures
            r == (self.build_parent() == self.hovered_capturing_ctrl()),
    {
        self.build_parent_idx == self.hovered_capturing_ctrl_idx
    }

    /// Whether the control at `idx` is the active one.
    pub fn active(&self, idx: usize) -> (r: bool)
        ensures
            r == (self.active_ctrl() == Some(idx)),
    {
        self.active_ctrl_idx == Some(idx)
    }

    pub fn request_want_capture_keyboard(&mut self)
        ensures
            final(self).capture_keyboard(),
            same_tree(*old(self), *final(self)),
            final(self).capture_mouse() == old(self).capture_mouse(),
            final(self).pressed() == old(self).pressed(),
            final(self).released() == old(self).released(),
            final(self).active_ctrl() == old(self).active_ctrl(),
            final(self).hovered_ctrl() == old(self).hovered_ctrl(),
            final(self).hovered_capturing_ctrl() == old(self).hovered_capturing_ctrl(),
            final(self).texture_id() == old(self).texture_id(),
            final(self).received() == old(self).received(),
            old(self).wf() ==> final(self).wf(),
    {
        self.want_capture_keyboard = true;
    }

    pub fn request_want_capture_mouse(&mut self)
        ensures
            final(self).capture_mouse(),
            same_tree(*old(self), *final(self)),
            final(self).capture_keyboard() == old(self).capture_keyboard(),
            final(self).pressed() == old(self).pressed(),
            final(self).released() == old(self).released(),
            final(self).active_ctrl() == old(self).active_ctrl(),
            final(self).hovered_ctrl() == old(self).hovered_ctrl(),
            final(self).hovered_capturing_ctrl() == old(self).hovered_capturing_ctrl(),
            final(self).texture_id() == old(self).texture_id(),
            final(self).received() == old(self).received(),
            old(self).wf() ==> final(self).wf(),
    {
        self.want_capture_mouse = true;
    }

    /// Adds a draw primitive to the build parent, whose draw range must end
    /// at the end of the primitives.
    pub fn draw_primitive(&mut self, primitive: D)
        requires
            old(self).wf(),
            old(self).building(),
            old(self).build_parent() is Some,
            old(self).nodes()[old(self).build_parent()->0 as int].draw_range_end == old(self).primitives().len(),
            old(self).primitives().len() < usize::MAX,
        ensures
            final(self).wf(),
            final(self).primitives() == old(self).primitives().push(primitive),
            ({
                let p = old(self).build_parent()->0 as int;
                final(self).nodes() == old(self).nodes().update(p, CtrlNode { draw_range_end: (old(self).nodes()[p].draw_range_end + 1) as usize, ..old(self).nodes()[p] })
            }),
            final(self).states() == old(self).states(),
            final(self).payloads() == old(self).payloads(),
            final(self).ranks() == old(self).ranks(),
            final(self).frame() == old(self).frame(),
            final(self).building() == old(self).building(),
            final(self).overlay() == old(self).overlay(),
            final(self).build_parent() == old(self).build_parent(),
            final(self).build_sibling() == old(self).build_sibling(),
            final(self).other_build_parent() == old(self).other_build_parent(),
            final(self).other_build_sibling() == old(self).other_build_sibling(),
            same_status(*old(self), *final(self)),
            old(self).build_ok() ==> final(self).build_ok(),
    {
        let p = self.build_parent_idx.unwrap();
        self.draw_primitives.push(primitive);
        let mut node = self.nodes[p];
        node.draw_range_end = node.draw_range_end + 1;
        self.replace_node(p, node);
    }
}

impl<P, D> Ui<P, D> {
    /// Removes the controls that were not pushed in this frame, moving the
    /// last control into each hole. Returns the relocations `(old index, new
    /// index)` of the moved controls, in the order they were made, with the
    /// old index of each control left (`orig`), the new index of each old
    /// control or -1 (`pos`), and for each new index the relocation that
    /// moved its control there, or -1 (`rel_of`).
    #[verifier::rlimit(80)]
    fn compact(&mut self) -> (r: (Vec<(usize, usize)>, Ghost<Seq<int>>, Ghost<Seq<int>>, Ghost<Seq<int>>))
        requires
            old(self).wf(),
            old(self).live(0),
            old(self).live(1),
        ensures
            ({
                let (rels, orig, pos, rel_of) = r;
                let n = old(self).nodes().len() as int;
                let l = final(self).nodes@.len() as int;
                &&& final(self).states@.len() == l
                &&& final(self).payloads@.len() == l
                &&& final(self).rank@.len() == l
                &&& orig@.len() == l
                &&& pos@.len() == n
                &&& rel_of@.len() == l
                &&& forall|k: int|
                    0 <= k < l ==> {
                        &&& 0 <= #[trigger] orig@[k] < n
                        &&& final(self).nodes@[k] == old(self).nodes@[orig@[k]]
                        &&& final(self).states@[k] == old(self).states@[orig@[k]]
                        &&& final(self).payloads@[k] == old(self).payloads@[orig@[k]]
                        &&& final(self).rank@[k] == old(self).rank@[orig@[k]]
                        &&& old(self).live(orig@[k])
                        &&& pos@[orig@[k]] == k
                        &&& ((orig@[k] == k && rel_of@[k] == -1) || (0 <= rel_of@[k] < rels@.len()
                            && rels@[rel_of@[k]] == (orig@[k] as usize, k as usize)))
                    }
                &&& forall|i: int|
                    0 <= i < n ==> (#[trigger] pos@[i] == -1 && !old(self).live(i)) || (0 <= pos@[i] < l
                        && orig@[pos@[i]] == i)
                &&& forall|j: int|
                    0 <= j < rels@.len() ==> {
                        &&& (#[trigger] rels@[j]).1 < l
                        &&& rels@[j].0 as int == orig@[rels@[j].1 as int]
                        &&& rels@[j].0 >= l
                    }
                &&& forall|j1: int, j2: int|
                    0 <= j1 < j2 < rels@.len() ==> #[trigger] rels@[j1].1 < #[trigger] rels@[j2].1
                        && rels@[j1].0 > rels@[j2].0
                &&& l >= 2
                &&& orig@[0] == 0
                &&& orig@[1] == 1
            }),
            final(self).current_frame == old(self).current_frame,
            final(self).draw_primitives@ == old(self).draw_primitives@,
            same_status(*old(self), *final(self)),
            final(self).building_overlay == old(self).building_overlay,
            final(self).build_parent_idx == old(self).build_parent_idx,
            final(self).build_sibling_idx == old(self).build_sibling_idx,
            final(self).overlay_build_parent_idx == old(self).overlay_build_parent_idx,
            final(self).overlay_build_sibling_idx == old(self).overlay_build_sibling_idx,
            final(self).frame_open == old(self).frame_open,
    {
        let frame = self.current_frame;
        let ghost n = self.nodes@.len() as int;
        let ghost old_nodes = self.nodes@;
        let ghost old_states = self.states@;
        let ghost old_payloads = self.payloads@;
        let ghost old_rank = self.rank@;
        let ghost mut orig: Seq<int> = Seq::new(n as nat, |k: int| k);
        let ghost mut pos: Seq<int> = Seq::new(n as nat, |k: int| k);
        let ghost mut rel_of: Seq<int> = Seq::new(n as nat, |k: int| -1);
        let mut relocations: Vec<(usize, usize)> = Vec::new();
        let mut c: usize = 0;
        while c < self.nodes.len()
            invariant
                self.nodes@.len() == self.states@.len() == self.payloads@.len() == self.rank@.len(),
                orig.len() == self.nodes@.len(),
                rel_of.len() == self.nodes@.len(),
                pos.len() == n,
                old_nodes.len() == n,
                old_nodes == old(self).nodes@,
                old_states == old(self).states@,
                old_payloads == old(self).payloads@,
                old_rank == old(self).rank@,
                frame == old(self).current_frame,
                old_nodes[0].last_frame == frame,
                old_nodes[1].last_frame == frame,
                n >= 2,
                c <= self.nodes@.len() + 1,
                self.nodes@.len() <= n,
                self.nodes@.len() >= 2,
                orig[0] == 0,
                orig[1] == 1,
                c < 2 ==> self.nodes@.len() == n,
                forall|k: int|
                    0 <= k < self.nodes@.len() ==> {
                        &&& 0 <= #[trigger] orig[k] < n
                        &&& self.nodes@[k] == old_nodes[orig[k]]
                        &&& self.states@[k] == old_states[orig[k]]
                        &&& self.payloads@[k] == old_payloads[orig[k]]
                        &&& self.rank@[k] == old_rank[orig[k]]
                        &&& pos[orig[k]] == k
                    },
                forall|k: int| c <= k < self.nodes@.len() ==> #[trigger] orig[k] == k,
                forall|k: int| c <= k < self.nodes@.len() ==> #[trigger] rel_of[k] == -1,
                forall|k: int|
                    0 <= k < c && k < self.nodes@.len() ==> {
                        &&& old_nodes[#[trigger] orig[k]].last_frame == frame
                        &&& ((orig[k] == k && rel_of[k] == -1) || (0 <= rel_of[k] < relocations@.len()
                            && relocations@[rel_of[k]] == (orig[k] as usize, k as usize)))
                    },
                forall|i: int|
                    0 <= i < n ==> (#[trigger] pos[i] == -1 && old_nodes[i].last_frame != frame) || (0
                        <= pos[i] < self.nodes@.len() && orig[pos[i]] == i),
                forall|j: int|
                    0 <= j < relocations@.len() ==> {
                        &&& (#[trigger] relocations@[j]).1 < c
                        &&& relocations@[j].1 < self.nodes@.len()
                        &&& relocations@[j].0 as int == orig[relocations@[j].1 as int]
                        &&& relocations@[j].0 >= self.nodes@.len()
                    },
                forall|j1: int, j2: int|
                    0 <= j1 < j2 < relocations@.len() ==> #[trigger] relocations@[j1].1
                        < #[trigger] relocations@[j2].1 && relocations@[j1].0 > relocations@[j2].0,
                self.current_frame == frame,
                self.draw_primitives@ == old(self).draw_primitives@,
                same_status(*old(self), *self),
                self.building_overlay == old(self).building_overlay,
                self.build_parent_idx == old(self).build_parent_idx,
                self.build_sibling_idx == old(self).build_sibling_idx,
                self.overlay_build_parent_idx == old(self).overlay_build_parent_idx,
                self.overlay_build_sibling_idx == old(self).overlay_build_sibling_idx,
                self.frame_open == old(self).frame_open,
            decreases self.nodes@.len() + 1 - c,
        {
            if self.nodes[c].last_frame != frame {
                assert(c >= 2) by {
                    if c < 2 {
                        assert(orig[c as int] == c);
                    }
                }
                let ghost start_len = self.nodes@.len() as int;
                let ghost mut swapped = false;
                while c < self.nodes.len() && self.nodes[c].last_frame != frame
                    invariant
                        self.nodes@.len() == self.states@.len() == self.payloads@.len() == self.rank@.len(),
                        orig.len() == self.nodes@.len(),
                        rel_of.len() == self.nodes@.len(),
                        pos.len() == n,
                        old_nodes.len() == n,
                        old_nodes[0].last_frame == frame,
                        old_nodes[1].last_frame == frame,
                        n >= 2,
                        c < start_len,
                        c <= self.nodes@.len(),
                        self.nodes@.len() <= start_len,
                        start_len <= n,
                        swapped ==> self.nodes@.len() < start_len,
                        !swapped ==> self.nodes@.len() == start_len,
                        !swapped ==> self.nodes@[c as int].last_frame != frame,
                        c >= 2,
                        self.nodes@.len() >= 2,
                        orig[0] == 0,
                        orig[1] == 1,
                        forall|k: int|
                            0 <= k < self.nodes@.len() ==> {
                                &&& 0 <= #[trigger] orig[k] < n
                                &&& self.nodes@[k] == old_nodes[orig[k]]
                                &&& self.states@[k] == old_states[orig[k]]
                                &&& self.payloads@[k] == old_payloads[orig[k]]
                                &&& self.rank@[k] == old_rank[orig[k]]
                                &&& pos[orig[k]] == k
                            },
                        forall|k: int| c < k < self.nodes@.len() ==> #[trigger] orig[k] == k,
                        forall|k: int| c <= k < self.nodes@.len() ==> #[trigger] rel_of[k] == -1,
                        c < self.nodes@.len() ==> orig[c as int] == if swapped {
                            self.nodes@.len() as int
                        } else {
                            c as int
                        },
                        forall|k: int|
                            0 <= k < c ==> {
                                &&& old_nodes[#[trigger] orig[k]].last_frame == frame
                                &&& ((orig[k] == k && rel_of[k] == -1) || (0 <= rel_of[k]
                                    < relocations@.len() && relocations@[rel_of[k]] == (
                                orig[k] as usize, k as usize)))
                            },
                        forall|i: int|
                            0 <= i < n ==> (#[trigger] pos[i] == -1 && old_nodes[i].last_frame
                                != frame) || (0 <= pos[i] < self.nodes@.len() && orig[pos[i]] == i),
                        forall|j: int|
                            0 <= j < relocations@.len() ==> {
                                &&& (#[trigger] relocations@[j]).1 < c
                                &&& relocations@[j].0 as int == orig[relocations@[j].1 as int]
                                &&& relocations@[j].0 >= start_len
                            },
                        self.current_frame == frame,
                        self.draw_primitives@ == old(self).draw_primitives@,
                        same_status(*old(self), *self),
                        self.building_overlay == old(self).building_overlay,
                        self.build_parent_idx == old(self).build_parent_idx,
                        self.build_sibling_idx == old(self).build_sibling_idx,
                        self.overlay_build_parent_idx == old(self).overlay_build_parent_idx,
                        self.overlay_build_sibling_idx == old(self).overlay_build_sibling_idx,
                        self.frame_open == old(self).frame_open,
                    decreases self.nodes@.len(),
                {
                    let ghost l = self.nodes@.len() as int;
                    let ghost x = orig[c as int];
                    let ghost y = orig[l - 1];
                    self.nodes.swap_remove(c);
                    self.states.swap_remove(c);
                    self.payloads.swap_remove(c);
                    proof {
                        self.rank = Ghost(self.rank@.update(c as int, self.rank@[l - 1]).drop_last());
                        orig = orig.update(c as int, y).drop_last();
                        rel_of = rel_of.update(c as int, rel_of[l - 1]).drop_last();
                        if (c as int) < l - 1 {
                            pos = pos.update(x, -1).update(y, c as int);
                        } else {
                            pos = pos.update(x, -1);
                        }
                        swapped = true;
                    }
                }
                if c < self.nodes.len() {
                    let ghost r_idx = relocations@.len() as int;
                    relocations.push((self.nodes.len(), c));
                    proof {
                        rel_of = rel_of.update(c as int, r_idx);
                    }
                }
            }
            c = c + 1;
        }
        (relocations, Ghost(orig), Ghost(pos), Ghost(rel_of))
    }
}

/// A relocation that turns `src` into `dst` applied to a link.
pub open spec fn relocated(link: Option<usize>, src: usize, dst: usize) -> Option<usize> {
    if link == Some(src) {
        Some(dst)
    } else {
        link
    }
}

fn apply_relocation(link: Option<usize>, src: usize, dst: usize) -> (r: Option<usize>)
    ensures
        r == relocated(link, src, dst),
{
    match link {
        Some(idx) => if idx == src {
            Some(dst)
        } else {
            link
        },
        None => None,
    }
}

/// Relocations that do not start at the value `v` leave it in place.
proof fn lemma_apply_rels_stays(rels: Seq<(usize, usize)>, a: int, b: int, x: usize)
    requires
        0 <= a <= b <= rels.len(),
        forall|j: int| a <= j < b ==> (#[trigger] rels[j]).0 != apply_rels(rels, a, x),
    ensures
        apply_rels(rels, b, x) == apply_rels(rels, a, x),
    decreases b - a,
{
    if b > a {
        lemma_apply_rels_stays(rels, a, b - 1, x);
    }
}

/// After compaction, relocating by all the relocations takes a live control
/// to its new index and leaves every other value alone.
proof fn lemma_rels_reach_pos(
    rels: Seq<(usize, usize)>,
    orig: Seq<int>,
    pos: Seq<int>,
    rel_of: Seq<int>,
    old_nodes: Seq<CtrlNode>,
    frame: u32,
    l: int,
    x: usize,
)
    requires
        orig.len() == l,
        rel_of.len() == l,
        pos.len() == old_nodes.len(),
        forall|k: int|
            0 <= k < l ==> {
                &&& 0 <= #[trigger] orig[k] < old_nodes.len()
                &&& old_nodes[orig[k]].last_frame == frame
                &&& pos[orig[k]] == k
                &&& ((orig[k] == k && rel_of[k] == -1) || (0 <= rel_of[k] < rels.len()
                    && rels[rel_of[k]] == (orig[k] as usize, k as usize)))
            },
        forall|i: int|
            0 <= i < old_nodes.len() ==> (#[trigger] pos[i] == -1 && old_nodes[i].last_frame != frame) || (0 <= pos[i] < l
                && orig[pos[i]] == i),
        forall|j: int|
            0 <= j < rels.len() ==> {
                &&& (#[trigger] rels[j]).1 < l
                &&& rels[j].0 as int == orig[rels[j].1 as int]
                &&& rels[j].0 >= l
            },
        forall|j1: int, j2: int|
            0 <= j1 < j2 < rels.len() ==> #[trigger] rels[j1].1 < #[trigger] rels[j2].1
                && rels[j1].0 > rels[j2].0,
    ensures
        apply_rels(rels, rels.len() as int, x) == if x < old_nodes.len() && old_nodes[x as int].last_frame == frame {
            pos[x as int] as usize
        } else {
            x
        },
{
    let n = old_nodes.len() as int;
    let r = rels.len() as int;
    if x < n && old_nodes[x as int].last_frame == frame {
        let k = pos[x as int];
        assert(0 <= k < l && orig[k] == x);
        if orig[k] == k && rel_of[k] == -1 {
            assert forall|j: int| 0 <= j < r implies (#[trigger] rels[j]).0 != apply_rels(rels, 0, x) by {}
            lemma_apply_rels_stays(rels, 0, r, x);
        } else {
            let js = rel_of[k];
            assert(rels[js] == (x, k as usize));
            assert forall|j: int| 0 <= j < js implies (#[trigger] rels[j]).0 != apply_rels(rels, 0, x) by {
                assert(rels[j].0 > rels[js].0);
            }
            lemma_apply_rels_stays(rels, 0, js, x);
            assert(apply_rels(rels, js + 1, x) == k as usize);
            assert forall|j: int| js + 1 <= j < r implies (#[trigger] rels[j]).0 != apply_rels(rels, js + 1, x) by {}
            lemma_apply_rels_stays(rels, js + 1, r, x);
        }
    } else {
        assert forall|j: int| 0 <= j < r implies (#[trigger] rels[j]).0 != apply_rels(rels, 0, x) by {
            let k = rels[j].1 as int;
            assert(0 <= orig[k] < n);
        }
        lemma_apply_rels_stays(rels, 0, r, x);
    }
}

/// What compaction followed by relocation leaves: the live controls, moved,
/// with a tree that is still well formed, and every link relocated to where
/// its control went.
proof fn lemma_compaction<P>(
    old_nodes: Seq<CtrlNode>,
    old_states: Seq<CtrlState>,
    old_payloads: Seq<P>,
    old_rank: Seq<nat>,
    frame: u32,
    mid_nodes: Seq<CtrlNode>,
    new_nodes: Seq<CtrlNode>,
    new_states: Seq<CtrlState>,
    new_payloads: Seq<P>,
    new_rank: Seq<nat>,
    rels: Seq<(usize, usize)>,
    orig: Seq<int>,
    pos: Seq<int>,
    rel_of: Seq<int>,
)
    requires
        tree_ok(old_nodes, old_rank),
        old_states.len() == old_nodes.len(),
        old_payloads.len() == old_nodes.len(),
        forall|i: int|
            0 <= i < old_nodes.len() && #[trigger] live_in(old_nodes, frame, i) ==> {
                &&& (old_nodes[i].parent_idx matches Some(p) ==> live_in(old_nodes, frame, p as int))
                &&& (old_nodes[i].child_idx matches Some(c) ==> live_in(old_nodes, frame, c as int))
                &&& (old_nodes[i].sibling_idx matches Some(s) ==> live_in(old_nodes, frame, s as int))
            },
        mid_nodes.len() == orig.len(),
        new_nodes.len() == orig.len(),
        new_states.len() == orig.len(),
        new_payloads.len() == orig.len(),
        new_rank.len() == orig.len(),
        rel_of.len() == orig.len(),
        pos.len() == old_nodes.len(),
        orig.len() >= 2,
        orig[0] == 0,
        orig[1] == 1,
        forall|k: int|
            0 <= k < orig.len() ==> {
                &&& 0 <= #[trigger] orig[k] < old_nodes.len()
                &&& mid_nodes[k] == old_nodes[orig[k]]
                &&& new_states[k] == old_states[orig[k]]
                &&& new_payloads[k] == old_payloads[orig[k]]
                &&& new_rank[k] == old_rank[orig[k]]
                &&& old_nodes[orig[k]].last_frame == frame
                &&& pos[orig[k]] == k
                &&& ((orig[k] == k && rel_of[k] == -1) || (0 <= rel_of[k] < rels.len()
                    && rels[rel_of[k]] == (orig[k] as usize, k as usize)))
            },
        forall|i: int|
            0 <= i < old_nodes.len() ==> (#[trigger] pos[i] == -1 && old_nodes[i].last_frame != frame)
                || (0 <= pos[i] < orig.len() && orig[pos[i]] == i),
        forall|j: int|
            0 <= j < rels.len() ==> {
                &&& (#[trigger] rels[j]).1 < orig.len()
                &&& rels[j].0 as int == orig[rels[j].1 as int]
                &&& rels[j].0 >= orig.len()
            },
        forall|j1: int, j2: int|
            0 <= j1 < j2 < rels.len() ==> #[trigger] rels[j1].1 < #[trigger] rels[j2].1
                && rels[j1].0 > rels[j2].0,
        forall|k: int|
            0 <= k < orig.len() ==> #[trigger] new_nodes[k] == apply_rels_node(
                rels,
                rels.len() as int,
                mid_nodes[k],
            ),
    ensures
        compacted_seqs(old_nodes, old_states, old_payloads, frame, new_nodes, new_states, new_payloads, pos),
        tree_ok(new_nodes, new_rank),
        forall|x: usize|
            #[trigger] apply_rels(rels, rels.len() as int, x) == if x < old_nodes.len() && live_in(
                old_nodes,
                frame,
                x as int,
            ) {
                pos[x as int] as usize
            } else {
                x
            },
{
    let n = old_nodes.len() as int;
    let l = orig.len() as int;
    let r = rels.len() as int;
    assert forall|x: usize| #![trigger apply_rels(rels, r, x)] true implies apply_rels(rels, r, x) == if x < n
        && live_in(old_nodes, frame, x as int) {
        pos[x as int] as usize
    } else {
        x
    } by {
        lemma_rels_reach_pos(rels, orig, pos, rel_of, old_nodes, frame, l, x);
    }
    assert forall|i: int| 0 <= i < n && #[trigger] live_in(old_nodes, frame, i) implies {
        &&& 0 <= pos[i] < l
        &&& new_nodes[pos[i]] == moved_node(old_nodes[i], pos)
        &&& new_states[pos[i]] == old_states[i]
        &&& new_payloads[pos[i]] == old_payloads[i]
    } by {
        let k = pos[i];
        assert(orig[k] == i);
        let nd = old_nodes[i];
        assert(new_nodes[k] == apply_rels_node(rels, r, mid_nodes[k]));
        if let Some(x) = nd.parent_idx {
            assert(link_ok(nd.parent_idx, n));
            assert(apply_rels(rels, r, x) == pos[x as int] as usize);
        }
        if let Some(x) = nd.child_idx {
            assert(link_ok(nd.child_idx, n));
            assert(apply_rels(rels, r, x) == pos[x as int] as usize);
        }
        if let Some(x) = nd.sibling_idx {
            assert(link_ok(nd.sibling_idx, n));
            assert(apply_rels(rels, r, x) == pos[x as int] as usize);
        }
    }
    assert forall|k: int| 0 <= k < l implies #[trigger] moved_to(old_nodes, frame, pos, k) by {
        assert(0 <= orig[k] < n && live_in(old_nodes, frame, orig[k]) && pos[orig[k]] == k);
    }
    assert forall|k: int| 0 <= k < l implies {
        &&& link_ok((#[trigger] new_nodes[k]).parent_idx, l)
        &&& link_ok(new_nodes[k].child_idx, l)
        &&& link_ok(new_nodes[k].sibling_idx, l)
        &&& (new_nodes[k].parent_idx matches Some(q) ==> new_rank[q as int] < new_rank[k])
    } by {
        let i = orig[k];
        assert(live_in(old_nodes, frame, i) && pos[i] == k);
        let nd = old_nodes[i];
        assert(link_ok(nd.parent_idx, n));
        assert(new_nodes[k] == moved_node(nd, pos));
        if let Some(x) = nd.parent_idx {
            assert(live_in(old_nodes, frame, x as int));
            assert(orig[pos[x as int]] == x);
        }
        if let Some(x) = nd.child_idx {
            assert(live_in(old_nodes, frame, x as int));
        }
        if let Some(x) = nd.sibling_idx {
            assert(live_in(old_nodes, frame, x as int));
        }
    }
    assert forall|i: int, j: int|
        0 <= i < n && 0 <= j < n && live_in(old_nodes, frame, i) && live_in(old_nodes, frame, j) && i
            != j implies #[trigger] pos[i] != #[trigger] pos[j] by {
        assert(orig[pos[i]] == i);
        assert(orig[pos[j]] == j);
    }
    assert(pos[0] == 0);
    assert(pos[1] == 1);
}

impl<P, D> Ui<P, D> {
    /// Applies the relocations to the links of every control and to the
    /// active control, one relocation after the other.
    fn apply_relocations(&mut self, rels: &Vec<(usize, usize)>)
        ensures
            final(self).nodes@.len() == old(self).nodes@.len(),
            forall|k: int| 0 <= k < final(self).nodes@.len() ==> #[trigger] final(self).nodes@[k] == apply_rels_node(rels@, rels@.len() as int, old(self).nodes@[k]),
            final(self).active_ctrl_idx == apply_rels_link(rels@, rels@.len() as int, old(self).active_ctrl_idx),
            final(self).states@ == old(self).states@,
            final(self).payloads@ == old(self).payloads@,
            final(self).rank@ == old(self).rank@,
            final(self).draw_primitives@ == old(self).draw_primitives@,
            final(self).current_frame == old(self).current_frame,
            final(self).inputs_pressed == old(self).inputs_pressed,
            final(self).inputs_released == old(self).inputs_released,
            final(self).hovered_ctrl_idx == old(self).hovered_ctrl_idx,
            final(self).hovered_capturing_ctrl_idx == old(self).hovered_capturing_ctrl_idx,
            final(self).want_capture_keyboard == old(self).want_capture_keyboard,
            final(self).want_capture_mouse == old(self).want_capture_mouse,
            final(self).font_atlas_texture_id == old(self).font_atlas_texture_id,
            final(self).received_characters == old(self).received_characters,
            final(self).building_overlay == old(self).building_overlay,
            final(self).build_parent_idx == old(self).build_parent_idx,
            final(self).build_sibling_idx == old(self).build_sibling_idx,
            final(self).overlay_build_parent_idx == old(self).overlay_build_parent_idx,
            final(self).overlay_build_sibling_idx == old(self).overlay_build_sibling_idx,
            final(self).frame_open == old(self).frame_open,
    {
        let ghost base = self.nodes@;
        let ghost base_active = self.active_ctrl_idx;
        let len = self.nodes.len();
        let mut j: usize = 0;
        while j < rels.len()
            invariant
                0 <= j <= rels@.len(),
                len == self.nodes@.len(),
                base.len() == len,
                base == old(self).nodes@,
                base_active == old(self).active_ctrl_idx,
                forall|k: int| 0 <= k < len ==> #[trigger] self.nodes@[k] == apply_rels_node(rels@, j as int, base[k]),
                self.active_ctrl_idx == apply_rels_link(rels@, j as int, base_active),
                self.states@ == old(self).states@,
                self.payloads@ == old(self).payloads@,
                self.rank@ == old(self).rank@,
                self.draw_primitives@ == old(self).draw_primitives@,
                self.current_frame == old(self).current_frame,
                self.inputs_pressed == old(self).inputs_pressed,
                self.inputs_released == old(self).inputs_released,
                self.hovered_ctrl_idx == old(self).hovered_ctrl_idx,
                self.hovered_capturing_ctrl_idx == old(self).hovered_capturing_ctrl_idx,
                self.want_capture_keyboard == old(self).want_capture_keyboard,
                self.want_capture_mouse == old(self).want_capture_mouse,
                self.font_atlas_texture_id == old(self).font_atlas_texture_id,
                self.received_characters == old(self).received_characters,
                self.building_overlay == old(self).building_overlay,
                self.build_parent_idx == old(self).build_parent_idx,
                self.build_sibling_idx == old(self).build_sibling_idx,
                self.overlay_build_parent_idx == old(self).overlay_build_parent_idx,
                self.overlay_build_sibling_idx == old(self).overlay_build_sibling_idx,
                self.frame_open == old(self).frame_open,
            decreases rels@.len() - j,
        {
            let (src, dst) = rels[j];
            self.active_ctrl_idx = apply_relocation(self.active_ctrl_idx, src, dst);
            let mut k: usize = 0;
            while k < len
                invariant
                    0 <= j < rels@.len(),
                    rels@[j as int] == (src, dst),
                    0 <= k <= len,
                    len == self.nodes@.len(),
                    base.len() == len,
                    forall|t: int| 0 <= t < k ==> #[trigger] self.nodes@[t] == apply_rels_node(rels@, j + 1, base[t]),
                    forall|t: int| k <= t < len ==> #[trigger] self.nodes@[t] == apply_rels_node(rels@, j as int, base[t]),
                    self.active_ctrl_idx == apply_rels_link(rels@, j + 1, base_active),
                    self.states@ == old(self).states@,
                    self.payloads@ == old(self).payloads@,
                    self.rank@ == old(self).rank@,
                    self.draw_primitives@ == old(self).draw_primitives@,
                    self.current_frame == old(self).current_frame,
                    self.inputs_pressed == old(self).inputs_pressed,
                    self.inputs_released == old(self).inputs_released,
                    self.hovered_ctrl_idx == old(self).hovered_ctrl_idx,
                    self.hovered_capturing_ctrl_idx == old(self).hovered_capturing_ctrl_idx,
                    self.want_capture_keyboard == old(self).want_capture_keyboard,
                    self.want_capture_mouse == old(self).want_capture_mouse,
                    self.font_atlas_texture_id == old(self).font_atlas_texture_id,
                    self.received_characters == old(self).received_characters,
                    self.building_overlay == old(self).building_overlay,
                    self.build_parent_idx == old(self).build_parent_idx,
                    self.build_sibling_idx == old(self).build_sibling_idx,
                    self.overlay_build_parent_idx == old(self).overlay_build_parent_idx,
                    self.overlay_build_sibling_idx == old(self).overlay_build_sibling_idx,
                    self.frame_open == old(self).frame_open,
                decreases len - k,
            {
                let mut node = self.nodes[k];
                node.parent_idx = apply_relocation(node.parent_idx, src, dst);
                node.child_idx = apply_relocation(node.child_idx, src, dst);
                node.sibling_idx = apply_relocation(node.sibling_idx, src, dst);
                self.nodes.set(k, node);
                k = k + 1;
            }
            j = j + 1;
        }
    }
}

impl<P, D> Ui<P, D> {
    /// Clears the sibling link (`sibling`) or the child link of a control.
    fn cut_link(&mut self, idx: usize, sibling: bool)
        requires
            old(self).wf(),
            idx < old(self).nodes().len(),
        ensures
            final(self).wf(),
            final(self).nodes() == old(self).nodes().update(
                idx as int,
                if sibling {
                    with_sibling(old(self).nodes()[idx as int], None)
                } else {
                    with_child(old(self).nodes()[idx as int], None)
                },
            ),
            same_but_nodes(*old(self), *final(self)),
    {
        let ghost len = self.nodes@.len() as int;
        let ghost old_nodes = self.nodes@;
        let mut node = self.nodes[idx];
        if sibling {
            node.sibling_idx = None;
        } else {
            node.child_idx = None;
        }
        self.nodes.set(idx, node);
        proof {
            assert forall|k: int| 0 <= k < len implies {
                &&& link_ok((#[trigger] self.nodes@[k]).parent_idx, len)
                &&& link_ok(self.nodes@[k].child_idx, len)
                &&& link_ok(self.nodes@[k].sibling_idx, len)
                &&& (self.nodes@[k].parent_idx matches Some(q) ==> self.rank@[q as int] < self.rank@[k])
            } by {
                assert(link_ok(old_nodes[k].parent_idx, len));
            }
        }
    }

    /// Ends building at the roots: the last control pushed under each root
    /// is cut from the controls that followed it in earlier frames (or, when
    /// none was pushed, the root loses its children). Both layers must be
    /// back at their roots.
    pub fn close_roots(&mut self)
        requires
            old(self).wf(),
            old(self).building(),
            old(self).build_parent() == Some(0usize),
            old(self).other_build_parent() == Some(1usize),
        ensures
            final(self).wf(),
            final(self).building(),
            final(self).nodes() == popped_nodes(
                popped_nodes(old(self).nodes(), 0, old(self).build_sibling()),
                1,
                old(self).other_build_sibling(),
            ),
            same_but_nodes(*old(self), *final(self)),
            old(self).build_ok() ==> final(self).links_live(),
    {
        proof {
            assert(self.nodes@.len() == self.nodes.len());
            if old(self).build_ok() {
                crate::building::law_close_roots_links_live(
                    self.nodes@,
                    self.rank@,
                    self.current_frame,
                    self.build_sibling_idx,
                    self.overlay_build_sibling_idx,
                );
            }
        }
        match self.build_sibling_idx {
            Some(b) => self.cut_link(b, true),
            None => self.cut_link(0, false),
        }
        match self.overlay_build_sibling_idx {
            Some(b) => self.cut_link(b, true),
            None => self.cut_link(1, false),
        }
    }

    /// Whether every link of a control pushed in this frame points at a
    /// control pushed in this frame.
    pub fn all_links_live(&self) -> (r: bool)
        requires
            self.wf(),
        ensures
            r == self.links_live(),
    {
        let frame = self.current_frame;
        let len = self.nodes.len();
        let mut i: usize = 0;
        while i < len
            invariant
                self.wf(),
                len == self.nodes().len(),
                frame == self.frame(),
                0 <= i <= len,
                forall|k: int|
                    0 <= k < i && #[trigger] self.live(k) ==> {
                        &&& (self.nodes()[k].parent_idx matches Some(p) ==> self.live(p as int))
                        &&& (self.nodes()[k].child_idx matches Some(c) ==> self.live(c as int))
                        &&& (self.nodes()[k].sibling_idx matches Some(s) ==> self.live(s as int))
                    },
            decreases len - i,
        {
            let node = self.nodes[i];
            assert(link_ok(self.nodes@[i as int].parent_idx, len as int));
            if node.last_frame == frame {
                proof {
                    assert(self.live(i as int));
                }
                if let Some(p) = node.parent_idx {
                    if self.nodes[p].last_frame != frame {
                        return false;
                    }
                }
                if let Some(c) = node.child_idx {
                    if self.nodes[c].last_frame != frame {
                        return false;
                    }
                }
                if let Some(s) = node.sibling_idx {
                    if self.nodes[s].last_frame != frame {
                        return false;
                    }
                }
            }
            i = i + 1;
        }
        true
    }

    /// Removes the controls that were not pushed in this frame and moves the
    /// links (and the active control) along with the controls that moved.
    /// Building is over until the next frame begins.
    #[verifier::rlimit(80)]
    pub fn collect_dead(&mut self)
        requires
            old(self).wf(),
            old(self).links_live(),
            old(self).live(0),
            old(self).live(1),
        ensures
            final(self).wf(),
            !final(self).building(),
            exists|pos: Seq<int>|
                {
                    &&& compacted(*old(self), *final(self), pos)
                    &&& final(self).active_ctrl() == match old(self).active_ctrl() {
                        Some(a) => Some(
                            if a < old(self).nodes().len() && old(self).live(a as int) {
                                pos[a as int] as usize
                            } else {
                                a
                            },
                        ),
                        None => None,
                    }
                },
            final(self).primitives() == old(self).primitives(),
            final(self).frame() == old(self).frame(),
            final(self).overlay() == old(self).overlay(),
            final(self).build_parent() == old(self).build_parent(),
            final(self).build_sibling() == old(self).build_sibling(),
            final(self).other_build_parent() == old(self).other_build_parent(),
            final(self).other_build_sibling() == old(self).other_build_sibling(),
            final(self).pressed() == old(self).pressed(),
            final(self).released() == old(self).released(),
            final(self).hovered_ctrl() == old(self).hovered_ctrl(),
            final(self).hovered_capturing_ctrl() == old(self).hovered_capturing_ctrl(),
            final(self).capture_keyboard() == old(self).capture_keyboard(),
            final(self).capture_mouse() == old(self).capture_mouse(),
            final(self).texture_id() == old(self).texture_id(),
            final(self).received() == old(self).received(),
            final(self).all_live(),
            final(self).nodes().len() == live_count(old(self).nodes(), old(self).frame()),
            old(self).consistent() ==> final(self).consistent(),
    {
        let ghost old_ui = *self;
        let (rels, Ghost(orig), Ghost(pos), Ghost(rel_of)) = self.compact();
        let ghost mid_nodes = self.nodes@;
        let ghost mid_active = self.active_ctrl_idx;
        self.apply_relocations(&rels);
        self.frame_open = Ghost(false);
        proof {
            assert forall|i: int|
                0 <= i < old_ui.nodes@.len() && #[trigger] live_in(old_ui.nodes@, old_ui.current_frame, i) implies {
                    &&& (old_ui.nodes@[i].parent_idx matches Some(p) ==> live_in(old_ui.nodes@, old_ui.current_frame, p as int))
                    &&& (old_ui.nodes@[i].child_idx matches Some(c) ==> live_in(old_ui.nodes@, old_ui.current_frame, c as int))
                    &&& (old_ui.nodes@[i].sibling_idx matches Some(s) ==> live_in(old_ui.nodes@, old_ui.current_frame, s as int))
                } by {
                assert(old_ui.live(i));
            }
            lemma_compaction(
                old_ui.nodes@,
                old_ui.states@,
                old_ui.payloads@,
                old_ui.rank@,
                old_ui.current_frame,
                mid_nodes,
                self.nodes@,
                self.states@,
                self.payloads@,
                self.rank@,
                rels@,
                orig,
                pos,
                rel_of,
            );
            match mid_active {
                Some(a) => {
                    assert(apply_rels(rels@, rels@.len() as int, a) == if a < old_ui.nodes@.len()
                        && old_ui.live(a as int) {
                        pos[a as int] as usize
                    } else {
                        a
                    });
                },
                None => {},
            }
            assert(compacted(old_ui, *self, pos));
            crate::next_frame::lemma_compacted_len(
                old_ui.nodes@,
                old_ui.states@,
                old_ui.payloads@,
                old_ui.current_frame,
                self.nodes@,
                self.states@,
                self.payloads@,
                pos,
            );
            assert forall|k: int| 0 <= k < self.nodes@.len() implies #[trigger] self.live(k) by {
                assert(moved_to(old_ui.nodes@, old_ui.current_frame, pos, k));
                let i = choose|i: int|
                    #![trigger pos[i]]
                    0 <= i < old_ui.nodes@.len() && live_in(old_ui.nodes@, old_ui.current_frame, i) && pos[i] == k;
                assert(self.nodes@[k] == moved_node(old_ui.nodes@[i], pos));
            }
            if links_consistent(old_ui.nodes@) {
                assert(self.nodes@.len() == self.nodes.len());
                assert(old_ui.nodes@.len() == old(self).nodes.len());
                assert forall|i: int|
                    0 <= i < old_ui.nodes@.len() && #[trigger] live_in(old_ui.nodes@, old_ui.current_frame, i) implies {
                        &&& (old_ui.nodes@[i].parent_idx matches Some(p) ==> 0 <= p < old_ui.nodes@.len() && live_in(old_ui.nodes@, old_ui.current_frame, p as int))
                        &&& (old_ui.nodes@[i].child_idx matches Some(c) ==> 0 <= c < old_ui.nodes@.len() && live_in(old_ui.nodes@, old_ui.current_frame, c as int))
                        &&& (old_ui.nodes@[i].sibling_idx matches Some(s) ==> 0 <= s < old_ui.nodes@.len() && live_in(old_ui.nodes@, old_ui.current_frame, s as int))
                    } by {
                    assert(old_ui.live(i));
                    assert(link_ok(old_ui.nodes@[i].parent_idx, old_ui.nodes@.len() as int));
                }
                crate::building::law_compacted_links_consistent(
                    old_ui.nodes@,
                    old_ui.states@,
                    old_ui.payloads@,
                    old_ui.current_frame,
                    self.nodes@,
                    self.states@,
                    self.payloads@,
                    pos,
                );
            }
        }
    }

    /// Ends a frame: nothing is being built, and the inputs and typed text of
    /// the frame are forgotten.
    pub fn finish_frame(&mut self)
        requires
            old(self).wf(),
        ensures
            final(self).wf(),
            final(self).build_parent() is None,
            final(self).build_sibling() is None,
            final(self).pressed() == Inputs(0),
            final(self).released() == Inputs(0),
            final(self).nodes() == old(self).nodes(),
            final(self).states() == old(self).states(),
            final(self).payloads() == old(self).payloads(),
            final(self).ranks() == old(self).ranks(),
            final(self).primitives() == old(self).primitives(),
            final(self).frame() == old(self).frame(),
            final(self).overlay() == old(self).overlay(),
            final(self).other_build_parent() == old(self).other_build_parent(),
            final(self).other_build_sibling() == old(self).other_build_sibling(),
            final(self).active_ctrl() == old(self).active_ctrl(),
            final(self).hovered_ctrl() == old(self).hovered_ctrl(),
            final(self).hovered_capturing_ctrl() == old(self).hovered_capturing_ctrl(),
            final(self).capture_keyboard() == old(self).capture_keyboard(),
            final(self).capture_mouse() == old(self).capture_mouse(),
            final(self).texture_id() == old(self).texture_id(),
            final(self).received().len() == 0,
            !final(self).building(),
    {
        self.build_parent_idx = None;
        self.build_sibling_idx = None;
        self.inputs_pressed = Inputs::empty();
        self.inputs_released = Inputs::empty();
        typed_clear(&mut self.received_characters);
        self.frame_open = Ghost(false);
    }
}

} // verus!
