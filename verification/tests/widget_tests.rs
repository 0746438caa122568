use guise::widgets::{
    checkbox_click, clamp_drag_value, click, drag, dropdown_choose, dropdown_click, window_step, ClickOutcome,
    DragOutcome, DragStep, DropdownOutcome, PanelOptions, WindowOptions, WindowStep,
    ACTIVITY_MOVE, ACTIVITY_NONE, ACTIVITY_RESIZE,
};

#[test]
fn click_press_then_release_over_control() {
    let pressed = click(false, true, true, false);
    assert_eq!(pressed, ClickOutcome { active: true, clicked: false, set_active: Some(true) });
    let released = click(true, true, false, true);
    assert_eq!(released, ClickOutcome { active: false, clicked: true, set_active: Some(false) });
}

#[test]
fn click_released_elsewhere_is_no_click() {
    let r = click(true, false, false, true);
    assert_eq!(r, ClickOutcome { active: false, clicked: false, set_active: Some(false) });
    let idle = click(false, false, true, false);
    assert_eq!(idle, ClickOutcome { active: false, clicked: false, set_active: None });
    let held = click(true, false, false, false);
    assert_eq!(held, ClickOutcome { active: true, clicked: false, set_active: None });
}

#[test]
fn checkbox_flips_only_when_clicked() {
    let mut v = false;
    let r = checkbox_click(&mut v, false, true, true, false);
    assert!(!r.clicked);
    assert!(!v);
    let r = checkbox_click(&mut v, true, true, false, true);
    assert!(r.clicked);
    assert!(v);
    let r = checkbox_click(&mut v, true, false, false, true);
    assert!(!r.clicked);
    assert!(v);
}

#[test]
fn dropdown_opens_and_closes() {
    let r = dropdown_click(false, false, true, true, false);
    assert_eq!(r, DropdownOutcome { open: true, active: true, set_active: Some(true) });
    let r = dropdown_click(true, true, false, true, true);
    assert_eq!(r, DropdownOutcome { open: true, active: true, set_active: None });
    let r = dropdown_click(true, true, true, true, false);
    assert_eq!(r, DropdownOutcome { open: false, active: false, set_active: Some(false) });
    let r = dropdown_click(false, false, false, true, false);
    assert_eq!(r, DropdownOutcome { open: false, active: false, set_active: None });
}

#[test]
fn drag_starts_follows_and_ends() {
    assert_eq!(
        drag(false, true, true, false),
        DragOutcome { step: DragStep::Start, active: true, set_active: Some(true) }
    );
    assert_eq!(
        drag(true, false, false, false),
        DragOutcome { step: DragStep::Follow, active: true, set_active: None }
    );
    assert_eq!(
        drag(true, true, false, true),
        DragOutcome { step: DragStep::Follow, active: false, set_active: Some(false) }
    );
    assert_eq!(
        drag(false, false, true, false),
        DragOutcome { step: DragStep::Idle, active: false, set_active: None }
    );
}

#[test]
fn clamp_drag_value_bounds() {
    assert_eq!(clamp_drag_value(5, 0, 10), 5);
    assert_eq!(clamp_drag_value(-5, 0, 10), 0);
    assert_eq!(clamp_drag_value(50, 0, 10), 10);
    assert_eq!(clamp_drag_value(i32::MIN, i32::MIN, i32::MAX), i32::MIN);
    assert_eq!(clamp_drag_value(3, 10, 0), 0);
    assert_eq!(clamp_drag_value(-3, 10, 0), 0);
}

#[test]
fn window_starts_and_stops_moving() {
    let r = window_step(ACTIVITY_NONE, true, true, true, false, true, false, true, false);
    assert_eq!(r.step, WindowStep::StartMove);
    assert_eq!(r.activity, ACTIVITY_MOVE);
    assert!(r.set_active);
    let r = window_step(ACTIVITY_MOVE, true, true, true, false, false, false, false, false);
    assert_eq!(r.step, WindowStep::Move);
    assert_eq!(r.activity, ACTIVITY_MOVE);
    assert!(!r.set_active);
    let r = window_step(ACTIVITY_MOVE, true, true, true, false, false, false, false, true);
    assert_eq!(r.step, WindowStep::Stay);
    assert_eq!(r.activity, ACTIVITY_NONE);
}

#[test]
fn window_resize_handle_wins_over_move() {
    let r = window_step(ACTIVITY_NONE, true, true, true, false, true, true, true, false);
    assert_eq!(r.step, WindowStep::StartResize);
    assert_eq!(r.activity, ACTIVITY_RESIZE);
    let r = window_step(ACTIVITY_RESIZE, true, true, true, false, false, false, false, false);
    assert_eq!(r.step, WindowStep::Resize);
    let r = window_step(ACTIVITY_NONE, true, true, false, false, true, true, true, false);
    assert_eq!(r.step, WindowStep::StartMove);
}

#[test]
fn window_does_not_follow_activity_it_no_longer_allows() {
    // Not movable: no moving, though the stored activity is kept as it was.
    let r = window_step(ACTIVITY_MOVE, true, false, true, false, false, false, false, false);
    assert_eq!(r.step, WindowStep::Stay);
    assert_eq!(r.activity, ACTIVITY_MOVE);
    // Releasing the button does not end what was not followed either.
    let r = window_step(ACTIVITY_RESIZE, true, true, false, false, false, false, false, true);
    assert_eq!(r.step, WindowStep::Stay);
    assert_eq!(r.activity, ACTIVITY_RESIZE);
    // A window not yet set up ignores what its state bytes say.
    let r = window_step(ACTIVITY_RESIZE, false, true, true, true, false, false, false, false);
    assert_eq!(r.step, WindowStep::Stay);
    assert_eq!(r.activity, ACTIVITY_RESIZE);
    assert!(r.set_active);
    // But a click on a movable window starts moving over a stale resize.
    let r = window_step(ACTIVITY_RESIZE, true, true, false, false, true, false, true, false);
    assert_eq!(r.step, WindowStep::StartMove);
    assert_eq!(r.activity, ACTIVITY_MOVE);
}

#[test]
fn options_default_to_everything() {
    assert_eq!(
        PanelOptions::default(),
        PanelOptions { draw_padding: true, draw_border: true, draw_header: true }
    );
    assert_eq!(
        WindowOptions::default(),
        WindowOptions { movable: true, resizable: true, open_on_top: true }
    );
}

#[test]
fn dropdown_choice_selects_and_closes() {
    let mut selected = Some(2);
    let mut state = [0u8; 64];
    state[0] = 1;
    state[1] = 9;
    dropdown_choose(&mut selected, &mut state, Some(4));
    assert_eq!(selected, Some(4));
    assert_eq!(state[0], 0);
    assert_eq!(state[1], 9);
    state[0] = 1;
    dropdown_choose(&mut selected, &mut state, None);
    assert_eq!(selected, None);
    assert_eq!(state[0], 0);
}
