use arrayvec::ArrayString;
use guise::flags::{Inputs, Modifiers};
use guise::string::{TextStorage, VecString};
use guise::text_edit::{
    float_filter, input_text_edit, input_text_edit_allowed, seek_next, seek_prev, text_input_edit,
    text_input_edit_allowed, InputTextSubmit, TextInputAction,
};

#[test]
fn seek_prev_steps_over_whole_characters() {
    let text = "añ€b";
    assert_eq!(seek_prev(0, text), 0);
    assert_eq!(seek_prev(1, text), 0);
    assert_eq!(seek_prev(3, text), 1);
    assert_eq!(seek_prev(6, text), 3);
    assert_eq!(seek_prev(7, text), 6);
    assert_eq!(seek_prev(2, text), 1);
}

#[test]
fn seek_next_steps_over_whole_characters() {
    let text = "añ€b";
    assert_eq!(seek_next(0, text), 1);
    assert_eq!(seek_next(1, text), 3);
    assert_eq!(seek_next(3, text), 6);
    assert_eq!(seek_next(6, text), 7);
    assert_eq!(seek_next(7, text), 7);
    assert_eq!(seek_next(4, text), 6);
}

#[test]
fn float_filter_keeps_number_characters() {
    for c in ['0', '5', '9', '.', '+', '-'] {
        assert_eq!(float_filter(c), Some(c));
    }
    for c in ['a', 'e', ' ', ',', 'ñ', '/'] {
        assert_eq!(float_filter(c), None);
    }
}

#[test]
fn input_text_backspace_at_end_and_inside() {
    let mut t = VecString::from_str_in("abc");
    let r = input_text_edit(&mut t, 99, true, false, Inputs::kb_backspace(), "");
    assert_eq!(t.as_str(), "ab");
    assert_eq!(r.text_cursor, 2);
    assert!(r.active && r.changed);
    assert_eq!(r.submit, InputTextSubmit::Nothing);
    assert_eq!(r.set_active, None);

    let r = input_text_edit(&mut t, 1, true, false, Inputs::kb_backspace(), "");
    assert_eq!(t.as_str(), "b");
    assert_eq!(r.text_cursor, 0);

    let r = input_text_edit(&mut t, 0, true, false, Inputs::kb_backspace(), "");
    assert_eq!(t.as_str(), "b");
    assert_eq!(r.text_cursor, 0);
    assert!(r.changed);
}

#[test]
fn input_text_backspace_on_empty_changes_nothing() {
    let mut t = VecString::new_in();
    let r = input_text_edit(&mut t, 0, true, false, Inputs::kb_backspace(), "");
    assert_eq!(t.as_str(), "");
    assert!(!r.changed);
    assert!(r.active);
}

#[test]
fn input_text_delete_at_cursor() {
    let mut t = VecString::from_str_in("abc");
    let r = input_text_edit(&mut t, 0, true, false, Inputs::kb_delete(), "");
    assert_eq!(t.as_str(), "bc");
    assert_eq!(r.text_cursor, 0);
    let r = input_text_edit(&mut t, 1, true, false, Inputs::kb_delete(), "");
    assert_eq!(t.as_str(), "b");
    assert_eq!(r.text_cursor, 1);
    let r = input_text_edit(&mut t, 1, true, false, Inputs::kb_delete(), "");
    assert_eq!(t.as_str(), "b");
    assert!(r.changed);
}

#[test]
fn input_text_arrows_move_cursor_within_text() {
    let mut t = VecString::from_str_in("ab");
    let r = input_text_edit(&mut t, 0, true, false, Inputs::kb_left_arrow(), "");
    assert_eq!(r.text_cursor, 0);
    let r = input_text_edit(&mut t, 1, true, false, Inputs::kb_left_arrow(), "");
    assert_eq!(r.text_cursor, 0);
    let r = input_text_edit(&mut t, 1, true, false, Inputs::kb_right_arrow(), "");
    assert_eq!(r.text_cursor, 2);
    let r = input_text_edit(&mut t, 7, true, false, Inputs::kb_right_arrow(), "");
    assert_eq!(r.text_cursor, 2);
    assert!(!r.changed);
    assert_eq!(t.as_str(), "ab");
}

#[test]
fn input_text_enter_submits_and_escape_cancels() {
    let mut t = VecString::from_str_in("ab");
    let r = input_text_edit(&mut t, 1, true, false, Inputs::kb_enter(), "");
    assert_eq!(r.submit, InputTextSubmit::Submit);
    assert!(!r.active);
    assert_eq!(r.set_active, Some(false));
    let r = input_text_edit(&mut t, 1, true, false, Inputs::kb_escape(), "");
    assert_eq!(r.submit, InputTextSubmit::Cancel);
    assert!(!r.active);
    assert_eq!(r.set_active, Some(false));
    assert_eq!(t.as_str(), "ab");
}

#[test]
fn input_text_typing_inserts_at_cursor() {
    let mut t = VecString::from_str_in("ad");
    let r = input_text_edit(&mut t, 1, true, false, Inputs::none(), "bc");
    assert_eq!(t.as_str(), "abcd");
    assert_eq!(r.text_cursor, 3);
    assert!(r.changed);
    let r = input_text_edit(&mut t, 4, true, false, Inputs::none(), "é");
    assert_eq!(t.as_str(), "abcdé");
    assert_eq!(r.text_cursor, 6);
}

#[test]
fn input_text_inactive_click_activates() {
    let mut t = VecString::from_str_in("ab");
    let r = input_text_edit(&mut t, 1, false, true, Inputs::mb_left(), "");
    assert!(r.active);
    assert_eq!(r.set_active, Some(true));
    assert!(!r.changed);
    let r = input_text_edit(&mut t, 1, false, false, Inputs::mb_left(), "x");
    assert!(!r.active);
    assert_eq!(r.set_active, None);
    assert_eq!(t.as_str(), "ab");
}

fn edit(
    t: &mut VecString,
    cursor: usize,
    start: usize,
    end: usize,
    inputs: Inputs,
    modifiers: Modifiers,
    received: &str,
    clipboard: &str,
) -> guise::text_edit::TextInputOutcome {
    text_input_edit(
        t,
        cursor,
        start,
        end,
        true,
        false,
        inputs,
        modifiers,
        received.chars().count(),
        received,
        clipboard,
    )
}

#[test]
fn text_input_select_all_then_cut() {
    let mut t = VecString::from_str_in("héllo");
    let r = edit(&mut t, 2, 2, 2, Inputs::kb_a(), Modifiers::ctrl(), "", "");
    assert_eq!((r.text_cursor, r.selection_start, r.selection_end), (0, 0, 6));
    assert!(!r.changed);
    let r = edit(&mut t, 0, 0, 6, Inputs::kb_x(), Modifiers::ctrl(), "", "");
    assert_eq!(t.as_str(), "");
    assert_eq!(r.copied.as_deref(), Some("héllo"));
    assert_eq!((r.text_cursor, r.selection_start, r.selection_end), (0, 0, 0));
}

#[test]
fn text_input_copy_keeps_text() {
    let mut t = VecString::from_str_in("héllo");
    let r = edit(&mut t, 3, 1, 4, Inputs::kb_c(), Modifiers::ctrl(), "", "");
    assert_eq!(t.as_str(), "héllo");
    assert_eq!(r.copied.as_deref(), Some("él"));
    let r = edit(&mut t, 3, 3, 3, Inputs::kb_c(), Modifiers::ctrl(), "", "");
    assert_eq!(r.copied, None);
}

#[test]
fn text_input_paste_replaces_selection() {
    let mut t = VecString::from_str_in("abcd");
    let r = edit(&mut t, 1, 1, 3, Inputs::kb_v(), Modifiers::ctrl(), "", "XY");
    assert_eq!(t.as_str(), "aXYd");
    assert_eq!(r.text_cursor, 3);
    assert!(r.copied.is_none());
}

#[test]
fn text_input_backspace_and_delete_whole_characters() {
    let mut t = VecString::from_str_in("añb");
    let r = edit(&mut t, 3, 3, 3, Inputs::kb_backspace(), Modifiers::none(), "", "");
    assert_eq!(t.as_str(), "ab");
    assert_eq!(r.text_cursor, 1);
    let mut t = VecString::from_str_in("añb");
    let r = edit(&mut t, 1, 1, 1, Inputs::kb_delete(), Modifiers::none(), "", "");
    assert_eq!(t.as_str(), "ab");
    assert_eq!(r.text_cursor, 1);
    let mut t = VecString::from_str_in("añb");
    let r = edit(&mut t, 0, 1, 4, Inputs::kb_delete(), Modifiers::none(), "", "");
    assert_eq!(t.as_str(), "a");
    assert_eq!(r.text_cursor, 1);
}

#[test]
fn text_input_arrows_with_shift_extend_selection() {
    let mut t = VecString::from_str_in("añb");
    let r = edit(&mut t, 1, 1, 1, Inputs::kb_right_arrow(), Modifiers::shift(), "", "");
    assert_eq!((r.text_cursor, r.selection_start, r.selection_end), (3, 1, 3));
    let r = edit(&mut t, 3, 3, 3, Inputs::kb_left_arrow(), Modifiers::none(), "", "");
    assert_eq!((r.text_cursor, r.selection_start, r.selection_end), (1, 1, 1));
}

#[test]
fn text_input_typing_replaces_selection() {
    let mut t = VecString::from_str_in("abcd");
    let r = edit(&mut t, 3, 1, 3, Inputs::none(), Modifiers::none(), "Z", "");
    assert_eq!(t.as_str(), "aZd");
    assert_eq!((r.text_cursor, r.selection_start, r.selection_end), (2, 2, 2));
    assert!(r.changed);
}

#[test]
fn text_input_enter_and_escape_leave() {
    let mut t = VecString::from_str_in("ab");
    let r = edit(&mut t, 1, 1, 1, Inputs::kb_enter(), Modifiers::none(), "", "");
    assert_eq!(r.action, TextInputAction::Submit);
    assert!(r.deactivated_from_kb && !r.active);
    let r = edit(&mut t, 1, 1, 1, Inputs::kb_escape(), Modifiers::none(), "", "");
    assert_eq!(r.action, TextInputAction::Cancel);
    assert_eq!(r.set_active, Some(false));
}

#[test]
fn text_input_click_activates_with_cursor_at_end() {
    let mut t = VecString::from_str_in("abc");
    let r = text_input_edit(
        &mut t,
        1,
        1,
        1,
        false,
        true,
        Inputs::mb_left(),
        Modifiers::none(),
        0,
        "",
        "",
    );
    assert!(r.active);
    assert_eq!(r.set_active, Some(true));
    assert_eq!((r.text_cursor, r.selection_start, r.selection_end), (3, 3, 3));
}

#[test]
fn input_text_checks_cursor_on_character_boundaries() {
    let text = VecString::from_str_in("añb");
    // Typing at the end, or deleting a whole character, is fine.
    assert!(input_text_edit_allowed(&text, 4, true, Inputs::none(), "x"));
    assert!(input_text_edit_allowed(&text, 1, true, Inputs::kb_backspace(), ""));
    // Typing inside `ñ`, or removing one of its bytes, is not.
    assert!(!input_text_edit_allowed(&text, 2, true, Inputs::none(), "x"));
    assert!(!input_text_edit_allowed(&text, 3, true, Inputs::kb_backspace(), ""));
    assert!(!input_text_edit_allowed(&text, 2, true, Inputs::kb_delete(), ""));
    // An inactive input touches nothing, wherever its cursor is.
    assert!(input_text_edit_allowed(&text, 2, false, Inputs::kb_backspace(), "x"));
}

#[test]
fn text_input_checks_selection_on_character_boundaries() {
    let text = VecString::from_str_in("añb");
    let none = Modifiers::none();
    let ctrl = Modifiers::ctrl();
    assert!(text_input_edit_allowed(&text, 1, 1, 1, true, Inputs::none(), none, 1, "x", ""));
    assert!(!text_input_edit_allowed(&text, 2, 2, 2, true, Inputs::none(), none, 1, "x", ""));
    assert!(text_input_edit_allowed(&text, 3, 1, 3, true, Inputs::kb_backspace(), none, 0, "", ""));
    assert!(!text_input_edit_allowed(&text, 2, 0, 2, true, Inputs::kb_backspace(), none, 0, "", ""));
    assert!(!text_input_edit_allowed(&text, 2, 2, 2, true, Inputs::kb_v(), ctrl, 0, "", "z"));
    assert!(text_input_edit_allowed(&text, 3, 3, 3, true, Inputs::kb_v(), ctrl, 0, "", "z"));
    // Moving the cursor never splits a character, wherever it starts.
    assert!(text_input_edit_allowed(&text, 2, 2, 2, true, Inputs::kb_left_arrow(), none, 0, "", ""));
    assert!(text_input_edit_allowed(&text, 2, 2, 2, false, Inputs::kb_delete(), none, 0, "", ""));
}

#[test]
fn full_inline_text_refuses_typing_and_paste() {
    let mut t: ArrayString<64> = ArrayString::new();
    t.push_str(&"x".repeat(62));
    // Two more bytes fit at the end.
    let r = input_text_edit(&mut t, 62, true, false, Inputs::none(), "ab");
    assert_eq!(t.len(), 64);
    assert_eq!(r.text_cursor, 64);
    // A third does not: the text stays and so does the cursor.
    let r = input_text_edit(&mut t, 64, true, false, Inputs::none(), "c");
    assert_eq!(t.len(), 64);
    assert_eq!(r.text_cursor, 64);
    assert!(r.changed);
    // Inside the text the cursor still moves past what was typed.
    let r = input_text_edit(&mut t, 3, true, false, Inputs::none(), "c");
    assert_eq!(&t[..4], "xxxx");
    assert_eq!(r.text_cursor, 4);

    let none = Modifiers::none();
    let r = text_input_edit(&mut t, 10, 10, 10, true, false, Inputs::none(), none, 1, "q", "");
    assert!(!t.contains('q'));
    assert_eq!(r.text_cursor, 11);
    // Pasting over a selection of the same length fits.
    let r = text_input_edit(&mut t, 0, 0, 2, true, false, Inputs::kb_v(), Modifiers::ctrl(), 0, "", "yz");
    assert!(t.starts_with("yzxx"));
    assert_eq!(t.len(), 64);
    assert_eq!(r.text_cursor, 2);
}

#[test]
fn cutting_storages_refuse_a_splice_that_leaves_half_a_character() {
    let none = Modifiers::none();
    // Backspace after `é` in "éa" shortens the text to one byte; `String`
    // and `ArrayString` cut there, where the old text has half of `é`.
    let vec = VecString::from_str_in("éa");
    let string = String::from("éa");
    let mut inline: ArrayString<64> = ArrayString::new();
    inline.push_str("éa");
    assert!(text_input_edit_allowed(&vec, 2, 2, 2, true, Inputs::kb_backspace(), none, 0, "", ""));
    assert!(!text_input_edit_allowed(&string, 2, 2, 2, true, Inputs::kb_backspace(), none, 0, "", ""));
    assert!(!text_input_edit_allowed(&inline, 2, 2, 2, true, Inputs::kb_backspace(), none, 0, "", ""));
    // Where the new length falls on a boundary, all of them can.
    assert!(text_input_edit_allowed(&string, 3, 3, 3, true, Inputs::kb_backspace(), none, 0, "", ""));
    let mut plain: ArrayString<64> = ArrayString::new();
    plain.push_str("ab");
    assert!(text_input_edit_allowed(&plain, 1, 1, 1, true, Inputs::kb_backspace(), none, 0, "", ""));
    // The vector storage does it.
    let mut vec = vec;
    let r = text_input_edit(&mut vec, 2, 2, 2, true, false, Inputs::kb_backspace(), none, 0, "", "");
    assert_eq!(vec.as_str(), "a");
    assert_eq!(r.text_cursor, 0);
    assert!(!TextStorage::can_splice(&string, 0, 2, 0));
    assert!(TextStorage::can_splice(&string, 0, 2, 2));
}
