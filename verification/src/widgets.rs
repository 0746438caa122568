//! The decisions that widgets take from one frame of mouse input: clicking
//! buttons and checkboxes, opening dropdowns, dragging values, and moving and
//! resizing windows, and closing panels and windows.
use vstd::prelude::*;

use crate::ctrl_state::{set_open, same_outside, CtrlState};
use crate::ui::{popped_nodes, same_status, Ui};

verus! {

/// What a frame of mouse input does to a clickable control: whether it is
/// active afterwards, whether it was clicked, and whether the control must
/// be made active (`Some(true)`) or inactive (`Some(false)`).
#[derive(Debug, Clone, Copy, PartialEq, Eq, Structural)]
pub struct ClickOutcome {
    pub active: bool,
    pub clicked: bool,
    pub set_active: Option<bool>,
}

/// A control becomes active when the left button goes down over it, and is
/// clicked when the button goes up over it again. Releasing it elsewhere
/// makes it inactive without a click.
pub open spec fn click_outcome(active: bool, hovered: bool, lmb_pressed: bool, lmb_released: bool) -> ClickOutcome {
    if active && lmb_released {
        ClickOutcome { active: false, clicked: hovered, set_active: Some(false) }
    } else if hovered && lmb_pressed {
        ClickOutcome { active: true, clicked: false, set_active: Some(true) }
    } else {
        ClickOutcome { active: active, clicked: false, set_active: None }
    }
}

/// Handles a frame of mouse input of a clickable control, as
/// `click_outcome` says.
pub fn click(active: bool, hovered: bool, lmb_pressed: bool, lmb_released: bool) -> (r:
    ClickOutcome)
    ensures
        r == click_outcome(active, hovered, lmb_pressed, lmb_released),
        r.clicked == (active && lmb_released && hovered),
        !active ==> !r.clicked,
{
    if active && lmb_released {
        ClickOutcome { active: false, clicked: hovered, set_active: Some(false) }
    } else if hovered && lmb_pressed {
        ClickOutcome { active: true, clicked: false, set_active: Some(true) }
    } else {
        ClickOutcome { active, clicked: false, set_active: None }
    }
}

/// A checkbox flips its value when clicked and reports whether it did.
pub fn checkbox_click(
    value: &mut bool,
    active: bool,
    hovered: bool,
    lmb_pressed: bool,
    lmb_released: bool,
) -> (r: ClickOutcome)
    ensures
        r == click_outcome(active, hovered, lmb_pressed, lmb_released),
        r.clicked == (active && lmb_released && hovered),
        *final(value) == (if r.clicked {
            !*old(value)
        } else {
            *old(value)
        }),
{
    let r = click(active, hovered, lmb_pressed, lmb_released);
    if r.clicked {
        *value = !*value;
    }
    r
}

/// A click takes a press over the control and a release over it: a control
/// that was not active when the left button went up is never clicked, and a
/// click comes only from a release over an active control. Pressing over an
/// inactive control makes it active, and releasing over it in a later frame
/// then clicks it and makes it inactive again.
pub proof fn law_click_needs_press_and_release(
    active: bool,
    hovered: bool,
    lmb_pressed: bool,
    lmb_released: bool,
)
    ensures
        !click_outcome(false, hovered, lmb_pressed, lmb_released).clicked,
        click_outcome(active, hovered, lmb_pressed, lmb_released).clicked ==> active
            && lmb_released && hovered,
        click_outcome(false, true, true, false).active,
        click_outcome(click_outcome(false, true, true, false).active, true, false, true).clicked,
        !click_outcome(click_outcome(false, true, true, false).active, true, false, true).active,
{
}

/// What a left click does to a dropdown: whether it is open and active
/// afterwards, and whether the control must be made active or inactive.
#[derive(Debug, Clone, Copy, PartialEq, Eq, Structural)]
pub struct DropdownOutcome {
    pub open: bool,
    pub active: bool,
    pub set_active: Option<bool>,
}

/// An open dropdown closes on a left click outside its list of options; a
/// closed one opens on a left click over it.
pub fn dropdown_click(
    open: bool,
    active: bool,
    hovered: bool,
    lmb_pressed: bool,
    cursor_in_overlay: bool,
) -> (r: DropdownOutcome)
    ensures
        lmb_pressed && open && !cursor_in_overlay ==> r == (DropdownOutcome {
            open: false,
            active: false,
            set_active: Some(false),
        }),
        lmb_pressed && !open && hovered ==> r == (DropdownOutcome {
            open: true,
            active: true,
            set_active: Some(true),
        }),
        !(lmb_pressed && open && !cursor_in_overlay) && !(lmb_pressed && !open && hovered) ==> r
            == (DropdownOutcome { open: open, active: active, set_active: None }),
{
    if lmb_pressed {
        if open {
            if !cursor_in_overlay {
                return DropdownOutcome { open: false, active: false, set_active: Some(false) };
            }
        } else if hovered {
            return DropdownOutcome { open: true, active: true, set_active: Some(true) };
        }
    }
    DropdownOutcome { open, active, set_active: None }
}

/// Which way a drag control goes this frame.
#[derive(Debug, Clone, Copy, PartialEq, Eq, Structural)]
pub enum DragStep {
    /// Not dragging.
    Idle,
    /// Dragging starts: remember the value and the cursor.
    Start,
    /// Dragging goes on (or ends on this frame): follow the cursor.
    Follow,
}

/// What a frame of mouse input does to a drag control: the step to take,
/// whether it is active afterwards, and whether the control must be made
/// active or inactive.
#[derive(Debug, Clone, Copy, PartialEq, Eq, Structural)]
pub struct DragOutcome {
    pub step: DragStep,
    pub active: bool,
    pub set_active: Option<bool>,
}

/// An active drag control follows the cursor until the left button is
/// released; an inactive one starts dragging when the button goes down over
/// it.
pub fn drag(active: bool, hovered: bool, lmb_pressed: bool, lmb_released: bool) -> (r:
    DragOutcome)
    ensures
        active ==> r == (DragOutcome {
            step: DragStep::Follow,
            active: !lmb_released,
            set_active: if lmb_released {
                Some(false)
            } else {
                None
            },
        }),
        !active && hovered && lmb_pressed ==> r == (DragOutcome {
            step: DragStep::Start,
            active: true,
            set_active: Some(true),
        }),
        !active && !(hovered && lmb_pressed) ==> r == (DragOutcome {
            step: DragStep::Idle,
            active: false,
            set_active: None,
        }),
{
    if active {
        if lmb_released {
            DragOutcome { step: DragStep::Follow, active: false, set_active: Some(false) }
        } else {
            DragOutcome { step: DragStep::Follow, active: true, set_active: None }
        }
    } else if hovered && lmb_pressed {
        DragOutcome { step: DragStep::Start, active: true, set_active: Some(true) }
    } else {
        DragOutcome { step: DragStep::Idle, active: false, set_active: None }
    }
}

/// Clamps a dragged value into `min..=max` the way integer drags do: first
/// up to `min`, then down to `max`.
pub fn clamp_drag_value(value: i32, min: i32, max: i32) -> (r: i32)
    ensures
        r == (if value < min {
            if min > max {
                max
            } else {
                min
            }
        } else if value > max {
            max
        } else {
            value
        }),
{
    let lower = if value < min {
        min
    } else {
        value
    };
    if lower > max {
        max
    } else {
        lower
    }
}

/// A window is neither moving nor resizing.
pub const ACTIVITY_NONE: u8 = 0;
/// A window follows the cursor.
pub const ACTIVITY_MOVE: u8 = 1;
/// A window's size follows the cursor.
pub const ACTIVITY_RESIZE: u8 = 2;

/// What a window does this frame with its position and size.
#[derive(Debug, Clone, Copy, PartialEq, Eq, Structural)]
pub enum WindowStep {
    /// Nothing happens.
    Stay,
    /// Resizing goes on: the size follows the cursor.
    Resize,
    /// Resizing starts: remember the size and the cursor.
    StartResize,
    /// Moving goes on: the position follows the cursor.
    Move,
    /// Moving starts: remember the position and the cursor.
    StartMove,
}

/// A click on an open dropdown's list: the option chosen (`None` for the
/// button that clears the choice) becomes the selection, and the dropdown
/// closes, its other state bytes left as they were.
pub fn dropdown_choose(selected: &mut Option<usize>, state: &mut CtrlState, choice: Option<usize>)
    ensures
        *final(selected) == choice,
        final(state)@[0] == 0u8,
        same_outside(old(state)@, final(state)@, 0, 1),
{
    *selected = choice;
    set_open(state, false);
}

/// What a frame of mouse input does to a window: the step to take, the
/// activity to keep in its state, whether it must become active, and the
/// stored activity that the window went on with this frame.
#[derive(Debug, Clone, Copy, PartialEq, Eq, Structural)]
pub struct WindowOutcome {
    pub step: WindowStep,
    pub activity: u8,
    pub set_active: bool,
    pub followed: u8,
}

/// The activity kept by an initialized window, dropped when the window may
/// no longer do it.
pub open spec fn window_kept_activity(
    stored: u8,
    initialized: bool,
    movable: bool,
    resizable: bool,
) -> u8 {
    if !initialized {
        ACTIVITY_NONE
    } else if stored == ACTIVITY_MOVE && !movable {
        ACTIVITY_NONE
    } else if stored == ACTIVITY_RESIZE && !resizable {
        ACTIVITY_NONE
    } else {
        stored
    }
}

/// A resizing window follows the cursor until the left button is released;
/// otherwise a click on its resize handle starts resizing. A moving window
/// follows the cursor until the button is released; otherwise a click on it
/// starts moving. A click on a window, or its first frame when it opens on
/// top, makes it active. An activity that the window may no longer do is
/// not taken up, but when nothing else happens the stored activity is kept
/// as it was.
pub fn window_step(
    stored_activity: u8,
    initialized: bool,
    movable: bool,
    resizable: bool,
    open_on_top: bool,
    hovered: bool,
    resize_handle_hovered: bool,
    lmb_pressed: bool,
    lmb_released: bool,
) -> (r: WindowOutcome)
    ensures
        ({
            let a = window_kept_activity(stored_activity, initialized, movable, resizable);
            &&& r.set_active == (hovered && lmb_pressed || open_on_top && !initialized)
            &&& r.followed == a
            &&& if a == ACTIVITY_RESIZE {
                if lmb_released {
                    r.step == WindowStep::Stay && r.activity == ACTIVITY_NONE
                } else {
                    r.step == WindowStep::Resize && r.activity == a
                }
            } else if resizable && hovered && resize_handle_hovered && lmb_pressed {
                r.step == WindowStep::StartResize && r.activity == ACTIVITY_RESIZE
            } else if a == ACTIVITY_MOVE {
                if lmb_released {
                    r.step == WindowStep::Stay && r.activity == ACTIVITY_NONE
                } else {
                    r.step == WindowStep::Move && r.activity == a
                }
            } else if movable && hovered && lmb_pressed {
                r.step == WindowStep::StartMove && r.activity == ACTIVITY_MOVE
            } else {
                r.step == WindowStep::Stay && r.activity == stored_activity
            }
        }),
{
    let activity = if initialized {
        if stored_activity == ACTIVITY_MOVE && !movable {
            ACTIVITY_NONE
        } else if stored_activity == ACTIVITY_RESIZE && !resizable {
            ACTIVITY_NONE
        } else {
            stored_activity
        }
    } else {
        ACTIVITY_NONE
    };
    let set_active = hovered && lmb_pressed || open_on_top && !initialized;
    let (step, new_activity) = if activity == ACTIVITY_RESIZE {
        if lmb_released {
            (WindowStep::Stay, ACTIVITY_NONE)
        } else {
            (WindowStep::Resize, activity)
        }
    } else if resizable && hovered && resize_handle_hovered && lmb_pressed {
        (WindowStep::StartResize, ACTIVITY_RESIZE)
    } else if activity == ACTIVITY_MOVE {
        if lmb_released {
            (WindowStep::Stay, ACTIVITY_NONE)
        } else {
            (WindowStep::Move, activity)
        }
    } else if movable && hovered && lmb_pressed {
        (WindowStep::StartMove, ACTIVITY_MOVE)
    } else {
        (WindowStep::Stay, stored_activity)
    };
    WindowOutcome { step, activity: new_activity, set_active, followed: activity }
}

/// Which parts of a panel are drawn.
#[derive(Debug, Clone, Copy, PartialEq, Eq, Structural)]
pub struct PanelOptions {
    pub draw_padding: bool,
    pub draw_border: bool,
    pub draw_header: bool,
}

impl Default for PanelOptions {
    /// Everything is drawn.
    fn default() -> (r: Self)
        ensures
            r == (PanelOptions { draw_padding: true, draw_border: true, draw_header: true }),
    {
        PanelOptions { draw_padding: true, draw_border: true, draw_header: true }
    }
}

/// What a window lets the user do.
#[derive(Debug, Clone, Copy, PartialEq, Eq, Structural)]
pub struct WindowOptions {
    pub movable: bool,
    pub resizable: bool,
    pub open_on_top: bool,
}

impl Default for WindowOptions {
    /// Movable, resizable, and on top when it opens.
    fn default() -> (r: Self)
        ensures
            r == (WindowOptions { movable: true, resizable: true, open_on_top: true }),
    {
        WindowOptions { movable: true, resizable: true, open_on_top: true }
    }
}

/// A panel that is open: its frame and its body are being built. Ending it
/// closes both.
pub struct Panel(pub bool);

impl Panel {
    /// Closes the body and the frame of the panel.
    pub fn end<P, D>(self, ui: &mut Ui<P, D>)
        requires
            !self.0,
            old(ui).wf(),
            old(ui).can_pop_twice(),
        ensures
            final(ui).wf(),
            final(ui).building(),
            ({
                let p = old(ui).build_parent()->0 as int;
                let q = old(ui).nodes()[p].parent_idx->0 as int;
                let once = popped_nodes(old(ui).nodes(), p, old(ui).build_sibling());
                &&& final(ui).nodes() == popped_nodes(once, q, Some(p as usize))
                &&& final(ui).build_parent() == once[q].parent_idx
                &&& final(ui).build_sibling() == Some(q as usize)
            }),
            final(ui).states() == old(ui).states(),
            final(ui).payloads() == old(ui).payloads(),
            final(ui).primitives() == old(ui).primitives(),
            final(ui).frame() == old(ui).frame(),
            final(ui).overlay() == old(ui).overlay(),
            final(ui).other_build_parent() == old(ui).other_build_parent(),
            final(ui).other_build_sibling() == old(ui).other_build_sibling(),
            same_status(*old(ui), *final(ui)),
            old(ui).build_ok() ==> final(ui).build_ok(),
    {
        ui.pop_ctrl();
        ui.pop_ctrl();
    }
}

/// A window that is open: its body is being built. Ending it closes it.
pub struct Window(pub bool);

impl Window {
    /// Closes the window.
    pub fn end<P, D>(self, ui: &mut Ui<P, D>)
        requires
            !self.0,
            old(ui).wf(),
            old(ui).can_pop(),
        ensures
            final(ui).wf(),
            final(ui).building(),
            ({
                let p = old(ui).build_parent()->0 as int;
                &&& final(ui).nodes() == popped_nodes(old(ui).nodes(), p, old(ui).build_sibling())
                &&& final(ui).build_parent() == old(ui).nodes()[p].parent_idx
                &&& final(ui).build_sibling() == Some(p as usize)
            }),
            final(ui).states() == old(ui).states(),
            final(ui).payloads() == old(ui).payloads(),
            final(ui).primitives() == old(ui).primitives(),
            final(ui).frame() == old(ui).frame(),
            final(ui).overlay() == old(ui).overlay(),
            final(ui).other_build_parent() == old(ui).other_build_parent(),
            final(ui).other_build_sibling() == old(ui).other_build_sibling(),
            same_status(*old(ui), *final(ui)),
            old(ui).build_ok() ==> final(ui).build_ok(),
    {
        ui.pop_ctrl();
    }
}

} // verus!
