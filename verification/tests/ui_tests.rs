use guise::flags::{CtrlFlags, Inputs};
use guise::ui::{Layout, Ui, OVERLAY_ROOT_IDX, ROOT_IDX};
use guise::widgets::{Panel, Window};

fn end_frame(ui: &mut Ui<u32, u32>) {
    ui.close_roots();
    assert!(ui.all_links_live());
    ui.collect_dead();
    ui.finish_frame();
}

#[test]
fn new_ui_has_two_roots() {
    let ui: Ui<u32, u32> = Ui::new(7, 8);
    assert_eq!(ui.ctrl_count(), 2);
    assert_eq!(*ui.payload(ROOT_IDX), 7);
    assert_eq!(*ui.payload(OVERLAY_ROOT_IDX), 8);
    assert_eq!(ui.current_frame(), 0);
    assert_eq!(ui.build_parent_idx(), None);
    assert_eq!(ui.active_ctrl_idx(), None);
    assert!(!ui.want_capture_keyboard() && !ui.want_capture_mouse());
    assert_eq!(ui.state(ROOT_IDX), [0u8; 64]);
}

#[test]
fn begin_frame_stamps_roots_and_starts_at_root() {
    let mut ui: Ui<u32, u32> = Ui::new(0, 0);
    ui.begin_frame();
    assert_eq!(ui.current_frame(), 1);
    assert_eq!(ui.node(ROOT_IDX).last_frame, 1);
    assert_eq!(ui.node(OVERLAY_ROOT_IDX).last_frame, 1);
    assert_eq!(ui.build_parent_idx(), Some(ROOT_IDX));
    end_frame(&mut ui);
    assert_eq!(ui.build_parent_idx(), None);
}

#[test]
fn push_appends_new_controls_in_order() {
    let mut ui: Ui<u32, u32> = Ui::new(0, 0);
    ui.begin_frame();
    let a = ui.push_ctrl(10, 100);
    assert_eq!(a, 2);
    assert_eq!(ui.build_parent_idx(), Some(a));
    let inner = ui.push_ctrl(11, 110);
    assert_eq!(inner, 3);
    assert_eq!(ui.node(inner).parent_idx, Some(a));
    ui.pop_ctrl();
    ui.pop_ctrl();
    let b = ui.push_ctrl(20, 200);
    assert_eq!(b, 4);
    ui.pop_ctrl();
    end_frame(&mut ui);
    assert_eq!(ui.ctrl_count(), 5);
    assert_eq!(ui.node(ROOT_IDX).child_idx, Some(a));
    assert_eq!(ui.node(a).sibling_idx, Some(b));
    assert_eq!(ui.node(a).child_idx, Some(inner));
    assert_eq!(ui.node(b).sibling_idx, None);
}

#[test]
fn controls_survive_frames_and_dead_ones_are_collected() {
    let mut ui: Ui<u32, u32> = Ui::new(0, 0);
    ui.begin_frame();
    ui.push_ctrl(10, 100);
    ui.pop_ctrl();
    let b = ui.push_ctrl(20, 200);
    let mut state = [0u8; 64];
    state[5] = 55;
    ui.set_state(b, state);
    ui.pop_ctrl();
    end_frame(&mut ui);
    assert_eq!(ui.ctrl_count(), 4);

    ui.begin_frame();
    let b2 = ui.push_ctrl(20, 999);
    assert_eq!(b2, b);
    assert_eq!(*ui.payload(b2), 200);
    ui.pop_ctrl();
    end_frame(&mut ui);

    assert_eq!(ui.ctrl_count(), 3);
    assert_eq!(ui.node(2).id, 20);
    assert_eq!(*ui.payload(2), 200);
    assert_eq!(ui.state(2)[5], 55);
    assert_eq!(ui.node(ROOT_IDX).child_idx, Some(2));
    assert_eq!(ui.node(2).parent_idx, Some(ROOT_IDX));
    assert_eq!(ui.node(2).sibling_idx, None);
}

#[test]
fn pushing_in_a_new_order_relinks_siblings() {
    let mut ui: Ui<u32, u32> = Ui::new(0, 0);
    ui.begin_frame();
    let a = ui.push_ctrl(1, 0);
    ui.pop_ctrl();
    let b = ui.push_ctrl(2, 0);
    ui.pop_ctrl();
    end_frame(&mut ui);

    ui.begin_frame();
    assert_eq!(ui.push_ctrl(2, 0), b);
    ui.pop_ctrl();
    assert_eq!(ui.push_ctrl(1, 0), a);
    ui.pop_ctrl();
    end_frame(&mut ui);
    assert_eq!(ui.ctrl_count(), 4);
    assert_eq!(ui.node(ROOT_IDX).child_idx, Some(b));
    assert_eq!(ui.node(b).sibling_idx, Some(a));
    assert_eq!(ui.node(a).sibling_idx, None);
}

#[test]
fn active_control_follows_relocation() {
    let mut ui: Ui<u32, u32> = Ui::new(0, 0);
    ui.begin_frame();
    ui.push_ctrl(1, 0);
    ui.pop_ctrl();
    let b = ui.push_ctrl(2, 0);
    ui.set_active(b, true);
    ui.pop_ctrl();
    end_frame(&mut ui);
    assert_eq!(ui.active_ctrl_idx(), Some(3));

    ui.begin_frame();
    ui.push_ctrl(2, 0);
    ui.pop_ctrl();
    end_frame(&mut ui);
    assert_eq!(ui.active_ctrl_idx(), Some(2));
    assert!(ui.active(2));
}

#[test]
fn set_active_stamps_the_active_path() {
    let mut ui: Ui<u32, u32> = Ui::new(0, 0);
    ui.begin_frame();
    ui.begin_frame();
    let a = ui.push_ctrl(1, 0);
    let c = ui.push_ctrl(2, 0);
    ui.set_active(c, true);
    assert_eq!(ui.active_ctrl_idx(), Some(c));
    assert_eq!(ui.node(c).last_frame_in_active_path, 2);
    assert_eq!(ui.node(a).last_frame_in_active_path, 2);
    ui.pop_ctrl();
    ui.pop_ctrl();
}

#[test]
fn deactivating_hands_activity_to_capturing_ancestor() {
    let mut ui: Ui<u32, u32> = Ui::new(0, 0);
    ui.begin_frame();
    let a = ui.push_ctrl(1, 0);
    ui.set_flags(a, CtrlFlags::capture_active());
    let c = ui.push_ctrl(2, 0);
    ui.set_active(c, true);
    ui.set_active(c, false);
    assert_eq!(ui.active_ctrl_idx(), Some(a));
    ui.pop_ctrl();
    ui.pop_ctrl();

    let mut ui: Ui<u32, u32> = Ui::new(0, 0);
    ui.begin_frame();
    let c = ui.push_ctrl(2, 0);
    ui.set_active(c, true);
    ui.set_active(c, false);
    assert_eq!(ui.active_ctrl_idx(), None);
    ui.pop_ctrl();
}

#[test]
fn overlay_builds_under_its_own_root() {
    let mut ui: Ui<u32, u32> = Ui::new(0, 0);
    ui.begin_frame();
    let a = ui.push_ctrl(1, 0);
    ui.begin_overlay();
    assert_eq!(ui.build_parent_idx(), Some(OVERLAY_ROOT_IDX));
    let o = ui.push_ctrl(9, 0);
    assert_eq!(ui.node(o).parent_idx, Some(OVERLAY_ROOT_IDX));
    ui.pop_ctrl();
    ui.end_overlay();
    assert_eq!(ui.build_parent_idx(), Some(a));
    ui.pop_ctrl();
    end_frame(&mut ui);
    assert_eq!(ui.node(OVERLAY_ROOT_IDX).child_idx, Some(o));
    assert_eq!(ui.node(ROOT_IDX).child_idx, Some(a));
}

#[test]
fn draw_primitives_extend_the_build_parent_range() {
    let mut ui: Ui<u32, u32> = Ui::new(0, 0);
    ui.begin_frame();
    let a = ui.push_ctrl(1, 0);
    ui.draw_primitive(5);
    ui.draw_primitive(6);
    assert_eq!(ui.draw_primitives(), &[5, 6]);
    assert_eq!(ui.node(a).draw_range_start, 0);
    assert_eq!(ui.node(a).draw_range_end, 2);
    ui.pop_ctrl();
    let b = ui.push_ctrl(2, 0);
    ui.draw_primitive(7);
    assert_eq!(ui.node(b).draw_range_start, 2);
    assert_eq!(ui.node(b).draw_range_end, 3);
    ui.pop_ctrl();
    end_frame(&mut ui);
    ui.begin_frame();
    assert!(ui.draw_primitives().is_empty());
}

#[test]
fn links_to_dead_controls_are_detected() {
    let mut ui: Ui<u32, u32> = Ui::new(0, 0);
    ui.begin_frame();
    ui.push_ctrl(1, 0);
    ui.pop_ctrl();
    ui.push_ctrl(2, 0);
    ui.pop_ctrl();
    end_frame(&mut ui);
    ui.begin_frame();
    ui.push_ctrl(1, 0);
    ui.pop_ctrl();
    assert!(!ui.all_links_live());
    ui.close_roots();
    assert!(ui.all_links_live());
}

fn two_children() -> (Ui<u32, u32>, usize, usize) {
    let mut ui: Ui<u32, u32> = Ui::new(0, 0);
    ui.begin_frame();
    let a = ui.push_ctrl(1, 0);
    ui.pop_ctrl();
    let b = ui.push_ctrl(2, 0);
    ui.pop_ctrl();
    (ui, a, b)
}

#[test]
fn free_layout_draws_most_recently_active_last() {
    let (mut ui, a, b) = two_children();
    assert_eq!(ui.draw_order(ROOT_IDX), vec![a, b]);
    ui.set_active(a, true);
    assert_eq!(ui.draw_order(ROOT_IDX), vec![b, a]);
    ui.set_layout(ROOT_IDX, Layout::Vertical);
    assert_eq!(ui.draw_order(ROOT_IDX), vec![a, b]);
}

#[test]
fn hover_finds_the_topmost_control_under_the_cursor() {
    let (mut ui, a, b) = two_children();
    let inside = [true, false, true, true];
    assert_eq!(ui.find_hovered(ROOT_IDX, &inside), Some(b));
    ui.set_active(a, true);
    assert_eq!(ui.find_hovered(ROOT_IDX, &inside), Some(a));
    ui.set_layout(ROOT_IDX, Layout::Horizontal);
    assert_eq!(ui.find_hovered(ROOT_IDX, &inside), Some(a));
    let only_b = [true, false, false, true];
    assert_eq!(ui.find_hovered(ROOT_IDX, &only_b), Some(b));
    let only_root = [true, false, false, false];
    assert_eq!(ui.find_hovered(ROOT_IDX, &only_root), Some(ROOT_IDX));
    assert_eq!(ui.find_hovered(OVERLAY_ROOT_IDX, &only_root), None);
}

#[test]
fn update_hover_prefers_a_capturing_overlay() {
    let mut ui: Ui<u32, u32> = Ui::new(0, 0);
    ui.begin_frame();
    let a = ui.push_ctrl(1, 0);
    ui.set_flags(a, CtrlFlags::capture_hover());
    ui.pop_ctrl();
    ui.begin_overlay();
    let o = ui.push_ctrl(2, 0);
    ui.pop_ctrl();
    ui.end_overlay();

    let inside = [true, true, true, true];
    ui.update_hover(&inside);
    assert_eq!(ui.hovered_ctrl_idx(), Some(a));
    assert_eq!(ui.hovered_capturing_ctrl_idx(), Some(a));
    assert!(ui.want_capture_mouse());

    ui.set_flags(o, CtrlFlags::capture_hover());
    ui.update_hover(&inside);
    assert_eq!(ui.hovered_ctrl_idx(), Some(o));
    assert_eq!(ui.hovered_capturing_ctrl_idx(), Some(o));

    let nothing = [false, false, false, false];
    ui.update_hover(&nothing);
    assert_eq!(ui.hovered_ctrl_idx(), None);
    assert_eq!(ui.hovered_capturing_ctrl_idx(), None);
}

#[test]
fn capture_hover_walks_up_to_capturing_ancestor() {
    let mut ui: Ui<u32, u32> = Ui::new(0, 0);
    ui.begin_frame();
    let a = ui.push_ctrl(1, 0);
    ui.set_flags(a, CtrlFlags::capture_hover());
    let c = ui.push_ctrl(2, 0);
    ui.capture_hover(Some(c));
    assert_eq!(ui.hovered_ctrl_idx(), Some(c));
    assert_eq!(ui.hovered_capturing_ctrl_idx(), Some(a));
    assert!(!ui.hovered());
    ui.pop_ctrl();
    assert!(ui.hovered());
    ui.pop_ctrl();
}

#[test]
fn scroll_goes_to_first_ancestor_that_takes_it() {
    let mut ui: Ui<u32, u32> = Ui::new(0, 0);
    ui.begin_frame();
    let a = ui.push_ctrl(1, 0);
    let c = ui.push_ctrl(2, 0);
    ui.pop_ctrl();
    ui.pop_ctrl();
    ui.capture_hover(Some(c));
    assert_eq!(ui.scroll_target(&[true, false, true, false]), Some(a));
    assert_eq!(ui.scroll_target(&[true, false, false, true]), Some(c));
    assert_eq!(ui.scroll_target(&[true, false, false, false]), Some(ROOT_IDX));
    assert_eq!(ui.scroll_target(&[false, false, false, false]), None);
    ui.capture_hover(None);
    assert_eq!(ui.scroll_target(&[true, true, true, true]), None);
}

#[test]
fn inputs_accumulate_until_the_frame_ends() {
    let mut ui: Ui<u32, u32> = Ui::new(0, 0);
    ui.begin_frame();
    ui.press_inputs(Inputs::mb_left());
    ui.press_inputs(Inputs::kb_enter());
    ui.release_inputs(Inputs::mb_right());
    assert_eq!(ui.inputs_pressed(), Inputs::mb_left().union(Inputs::kb_enter()));
    assert_eq!(ui.inputs_released(), Inputs::mb_right());
    end_frame(&mut ui);
    assert_eq!(ui.inputs_pressed(), Inputs::none());
    assert_eq!(ui.inputs_released(), Inputs::none());
}

#[test]
fn capture_requests_last_one_frame() {
    let mut ui: Ui<u32, u32> = Ui::new(0, 0);
    ui.begin_frame();
    ui.request_want_capture_keyboard();
    ui.request_want_capture_mouse();
    assert!(ui.want_capture_keyboard() && ui.want_capture_mouse());
    end_frame(&mut ui);
    ui.begin_frame();
    assert!(!ui.want_capture_keyboard() && !ui.want_capture_mouse());
}

#[test]
fn panel_end_closes_body_and_frame() {
    let mut ui: Ui<u32, u32> = Ui::new(0, 0);
    ui.begin_frame();
    let frame_ctrl = ui.push_ctrl(1, 0);
    let body = ui.push_ctrl(2, 0);
    ui.push_ctrl(3, 0);
    ui.pop_ctrl();
    Panel(false).end(&mut ui);
    assert_eq!(ui.build_parent_idx(), Some(ROOT_IDX));
    assert_eq!(ui.node(frame_ctrl).child_idx, Some(body));
    end_frame(&mut ui);
    assert_eq!(ui.ctrl_count(), 5);
}

#[test]
fn window_end_closes_the_window() {
    let mut ui: Ui<u32, u32> = Ui::new(0, 0);
    ui.begin_frame();
    let w = ui.push_ctrl(1, 0);
    Window(false).end(&mut ui);
    assert_eq!(ui.build_parent_idx(), Some(ROOT_IDX));
    assert_eq!(ui.node(w).child_idx, None);
    end_frame(&mut ui);
}

#[test]
fn font_atlas_texture_id_is_kept() {
    let mut ui: Ui<u32, u32> = Ui::new(0, 0);
    ui.set_font_atlas_texture_id(77);
    assert_eq!(ui.font_atlas_texture_id(), 77);
}

#[test]
fn frame_counter_wraps() {
    let mut ui: Ui<u32, u32> = Ui::new(0, 0);
    for _ in 0..3 {
        ui.begin_frame();
        end_frame(&mut ui);
    }
    assert_eq!(ui.current_frame(), 3);
}

#[test]
fn balanced_frames_leave_no_link_to_dead_controls() {
    let mut ui: Ui<u32, u32> = Ui::new(0, 0);
    ui.begin_frame();
    for id in 1..=4 {
        ui.push_ctrl(id, 0);
        ui.push_ctrl(10 * id, 0);
        ui.pop_ctrl();
        ui.pop_ctrl();
    }
    ui.begin_overlay();
    ui.push_ctrl(99, 0);
    ui.pop_ctrl();
    ui.end_overlay();
    ui.close_roots();
    assert!(ui.all_links_live());
    ui.collect_dead();
    ui.finish_frame();
    assert_eq!(ui.ctrl_count(), 11);

    ui.begin_frame();
    for id in [4, 2] {
        ui.push_ctrl(id, 0);
        if id == 4 {
            ui.push_ctrl(40, 0);
            ui.pop_ctrl();
        }
        ui.pop_ctrl();
    }
    ui.close_roots();
    assert!(ui.all_links_live());
    ui.collect_dead();
    ui.finish_frame();
    assert_eq!(ui.ctrl_count(), 5);

    let first = ui.node(ROOT_IDX).child_idx.unwrap();
    assert_eq!(ui.node(first).id, 4);
    let second = ui.node(first).sibling_idx.unwrap();
    assert_eq!(ui.node(second).id, 2);
    assert_eq!(ui.node(second).sibling_idx, None);
    assert_eq!(ui.node(second).child_idx, None);
    let grandchild = ui.node(first).child_idx.unwrap();
    assert_eq!(ui.node(grandchild).id, 40);
    assert_eq!(ui.node(grandchild).parent_idx, Some(first));
    assert_eq!(ui.node(OVERLAY_ROOT_IDX).child_idx, None);
}

#[test]
fn find_child_reports_the_child_and_its_predecessor() {
    let mut ui: Ui<u32, u32> = Ui::new(0, 0);
    ui.begin_frame();
    let a = ui.push_ctrl(1, 0);
    ui.pop_ctrl();
    let b = ui.push_ctrl(2, 0);
    ui.pop_ctrl();
    assert_eq!(ui.find_child_idx(ROOT_IDX, 1), Some((a, None)));
    assert_eq!(ui.find_child_idx(ROOT_IDX, 2), Some((b, Some(a))));
    assert_eq!(ui.find_child_idx(ROOT_IDX, 3), None);
    assert_eq!(ui.find_child_idx(a, 2), None);
}

#[test]
fn typed_text_is_kept_until_the_frame_ends() {
    let mut ui: Ui<u32, u32> = Ui::new(0, 0);
    ui.begin_frame();
    ui.send_character('a');
    ui.send_character('ñ');
    assert_eq!(ui.received_characters(), "añ");
    for _ in 0..40 {
        ui.send_character('x');
    }
    assert_eq!(ui.received_characters().len(), 32);
    ui.send_character('€');
    assert_eq!(ui.received_characters().len(), 32);
    assert!(ui.received_characters().starts_with("añxx"));
    end_frame(&mut ui);
    assert_eq!(ui.received_characters(), "");
}

#[test]
fn nested_control_is_found_again_with_its_state_after_collection() {
    let mut ui: Ui<u32, u32> = Ui::new(0, 0);
    ui.begin_frame();
    ui.push_ctrl(1, 0);
    ui.pop_ctrl();
    let panel = ui.push_ctrl(2, 0);
    ui.push_ctrl(8, 0);
    ui.pop_ctrl();
    let field = ui.push_ctrl(9, 0);
    let mut state = [0u8; 64];
    state[0] = 42;
    ui.set_state(field, state);
    ui.pop_ctrl();
    ui.pop_ctrl();
    end_frame(&mut ui);
    assert_eq!(ui.find_child_idx(ROOT_IDX, 2), Some((panel, Some(2))));

    // Control 1 and the panel's first child are left out of this frame.
    ui.begin_frame();
    let panel2 = ui.push_ctrl(2, 0);
    let field2 = ui.push_ctrl(9, 0);
    ui.pop_ctrl();
    ui.pop_ctrl();
    end_frame(&mut ui);
    assert_eq!(ui.ctrl_count(), 4);

    // The field had to move into a freed place; both are found again by
    // their ids, state included.
    let (panel3, prev) = ui.find_child_idx(ROOT_IDX, 2).unwrap();
    assert_eq!(prev, None);
    assert!(panel3 < 4 && panel2 == 3);
    let (field3, prev) = ui.find_child_idx(panel3, 9).unwrap();
    assert_eq!(prev, None);
    assert!(field3 < 4 && field2 == 5);
    assert_eq!(ui.state(field3)[0], 42);

    ui.begin_frame();
    assert_eq!(ui.push_ctrl(2, 0), panel3);
    assert_eq!(ui.push_ctrl(9, 0), field3);
    assert_eq!(ui.state(field3)[0], 42);
    ui.pop_ctrl();
    ui.pop_ctrl();
    end_frame(&mut ui);
}

#[test]
fn state_and_activity_carry_over_a_frame_with_relocation() {
    let mut ui: Ui<u32, u32> = Ui::new(0, 0);
    ui.begin_frame();
    ui.push_ctrl(1, 0);
    ui.pop_ctrl();
    let window = ui.push_ctrl(2, 0);
    let field = ui.push_ctrl(9, 0);
    let mut state = [0u8; 64];
    state[7] = 77;
    ui.set_state(field, state);
    ui.set_active(field, true);
    ui.pop_ctrl();
    ui.pop_ctrl();
    end_frame(&mut ui);
    assert_eq!(ui.active_ctrl_idx(), Some(field));

    // Control 1 is dropped; the field moves into its place.
    ui.begin_frame();
    ui.push_ctrl(2, 0);
    let moved = ui.push_ctrl(9, 0);
    assert_eq!(moved, field);
    ui.pop_ctrl();
    ui.pop_ctrl();
    end_frame(&mut ui);
    let (window2, _) = ui.find_child_idx(ROOT_IDX, 2).unwrap();
    let (field2, _) = ui.find_child_idx(window2, 9).unwrap();
    assert_ne!(field2, field);
    assert_eq!(ui.active_ctrl_idx(), Some(field2));

    ui.begin_frame();
    assert_eq!(ui.push_ctrl(2, 0), window2);
    assert_eq!(ui.push_ctrl(9, 0), field2);
    assert_eq!(ui.state(field2), state);
    assert!(ui.active(field2));
    ui.pop_ctrl();
    ui.pop_ctrl();
    end_frame(&mut ui);
    let _ = window;
}

#[test]
fn balanced_building_returns_to_the_build_position() {
    let mut ui: Ui<u32, u32> = Ui::new(0, 0);
    ui.begin_frame();
    let panel = ui.push_ctrl(1, 0);
    let mut state = [0u8; 64];
    state[3] = 33;
    ui.set_state(panel, state);
    let field = ui.push_ctrl(2, 0);
    ui.push_ctrl(3, 0);
    ui.pop_ctrl();
    ui.push_ctrl(4, 0);
    ui.pop_ctrl();
    ui.pop_ctrl();
    assert_eq!(ui.build_parent_idx(), Some(panel));
    assert_eq!(ui.state(panel), state);

    // An overlay built in between leaves the base layer where it was.
    ui.begin_overlay();
    assert_eq!(ui.build_parent_idx(), Some(OVERLAY_ROOT_IDX));
    ui.push_ctrl(5, 0);
    ui.push_ctrl(6, 0);
    ui.pop_ctrl();
    ui.pop_ctrl();
    assert_eq!(ui.build_parent_idx(), Some(OVERLAY_ROOT_IDX));
    ui.end_overlay();
    assert_eq!(ui.build_parent_idx(), Some(panel));
    assert_eq!(ui.node(ui.build_parent_idx().unwrap()).child_idx, Some(field));
    ui.pop_ctrl();
    assert_eq!(ui.build_parent_idx(), Some(ROOT_IDX));
    assert_eq!(ui.state(panel), state);
    end_frame(&mut ui);
}
