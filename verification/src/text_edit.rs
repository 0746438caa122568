//! Cursor movement over UTF-8 text and the keyboard editing of text inputs.
use vstd::prelude::*;
use vstd::utf8::*;
use vstd::string::*;

use crate::flags::{Inputs, Modifiers};
use crate::string::{TextStorage, spliced, splice_allowed};

verus! {

broadcast use {vstd::utf8::group_utf8_lib, vstd::seq_lib::group_seq_properties};

/// `r` is the last character boundary of `bytes` at or before `i`.
pub open spec fn is_floor_boundary(bytes: Seq<u8>, i: int, r: int) -> bool {
    &&& 0 <= r <= i
    &&& is_char_boundary(bytes, r)
    &&& forall|j: int| r < j <= i ==> !is_char_boundary(bytes, j)
}

/// `r` is the first character boundary of `bytes` at or after `i`.
pub open spec fn is_ceil_boundary(bytes: Seq<u8>, i: int, r: int) -> bool {
    &&& i <= r <= bytes.len()
    &&& is_char_boundary(bytes, r)
    &&& forall|j: int| i <= j < r ==> !is_char_boundary(bytes, j)
}

/// The position of the cursor after moving one character left from `index`:
/// the last character boundary before `index`, or 0.
pub fn seek_prev(index: usize, text: &str) -> (r: usize)
    requires
        index <= text.spec_bytes().len(),
    ensures
        index == 0 ==> r == 0,
        index > 0 ==> is_floor_boundary(text.spec_bytes(), index - 1, r as int),
{
    proof {
        encode_utf8_valid_utf8(text@);
        is_char_boundary_start_end_of_seq(text.spec_bytes());
    }
    let mut i: usize = if index == 0 {
        0
    } else {
        index - 1
    };
    let ghost start = i;
    while i > 0 && !text.is_char_boundary(i)
        invariant
            0 <= i <= start,
            start <= text.spec_bytes().len(),
            valid_utf8(text.spec_bytes()),
            is_char_boundary(text.spec_bytes(), 0),
            forall|j: int| i < j <= start ==> !is_char_boundary(text.spec_bytes(), j),
        decreases i,
    {
        i = i - 1;
    }
    i
}

/// The position of the cursor after moving one character right from
/// `index`: the first character boundary after `index`, or `index` itself
/// when it is at the end of the text.
pub fn seek_next(index: usize, text: &str) -> (r: usize)
    requires
        index <= text.spec_bytes().len(),
    ensures
        index == text.spec_bytes().len() ==> r == index,
        index < text.spec_bytes().len() ==> is_ceil_boundary(
            text.spec_bytes(),
            index + 1,
            r as int,
        ),
{
    proof {
        encode_utf8_valid_utf8(text@);
        is_char_boundary_start_end_of_seq(text.spec_bytes());
    }
    let len = text.as_bytes().len();
    if index < len {
        let mut i: usize = index + 1;
        while i < len && !text.is_char_boundary(i)
            invariant
                index + 1 <= i <= len,
                len == text.spec_bytes().len(),
                valid_utf8(text.spec_bytes()),
                is_char_boundary(text.spec_bytes(), len as int),
                forall|j: int| index + 1 <= j < i ==> !is_char_boundary(text.spec_bytes(), j),
            decreases len - i,
        {
            i = i + 1;
        }
        i
    } else {
        index
    }
}

/// The characters that a number input accepts.
pub open spec fn is_float_char(c: char) -> bool {
    c == '.' || c == '+' || c == '-' || ('0' <= c && c <= '9')
}

/// Keeps the characters that can appear in a decimal number and drops the
/// others.
pub fn float_filter(c: char) -> (r: Option<char>)
    ensures
        r == (if is_float_char(c) {
            Some(c)
        } else {
            None
        }),
{
    if c == '.' || c == '+' || c == '-' || ('0' <= c && c <= '9') {
        Some(c)
    } else {
        None
    }
}

/// How a text input was left.
#[derive(Debug, Clone, Copy, PartialEq, Eq, Structural, Hash)]
pub enum InputTextSubmit {
    Nothing,
    Submit,
    Cancel,
}

/// What one frame of keyboard and mouse input does to a text input: its new
/// cursor, whether it is active, whether the text changed, how it was left,
/// and whether the control must be made active (`Some(true)`) or inactive
/// (`Some(false)`).
pub struct InputTextOutcome {
    pub text_cursor: u32,
    pub active: bool,
    pub changed: bool,
    pub submit: InputTextSubmit,
    pub set_active: Option<bool>,
}

/// The cursor kept in the control's state, clamped to the text.
pub open spec fn clamped_cursor(state_cursor: u32, len: int) -> int {
    if state_cursor > len {
        len
    } else {
        state_cursor as int
    }
}

/// Whether an active text input receives anything this frame.
pub open spec fn input_text_receives(active: bool, inputs_pressed: Inputs, received: Seq<u8>) -> bool {
    active && (received.len() > 0 || inputs_pressed != Inputs::none())
}

/// The inputs on which handling a frame of a text input does not panic:
/// the text length fits in a `u32`, backspace and delete remove whole
/// characters and the storage can make the splice (`splice_ok`), typed text
/// is inserted at a character boundary, and the cursor does not overflow.
pub open spec fn input_text_allowed(
    bytes: Seq<u8>,
    state_cursor: u32,
    active: bool,
    inputs_pressed: Inputs,
    received: Seq<u8>,
    received_chars: int,
    splice_ok: spec_fn(int, int, int) -> bool,
) -> bool {
    let len = bytes.len() as int;
    let c = clamped_cursor(state_cursor, len);
    &&& len <= u32::MAX
    &&& input_text_receives(active, inputs_pressed, received) ==> {
        if inputs_pressed != Inputs::none() {
            &&& (inputs_pressed == Inputs::kb_backspace() && len > 0 && c == len) ==> is_char_boundary(
                bytes,
                len - 1,
            )
            &&& (inputs_pressed == Inputs::kb_backspace() && len > 0 && c < len && c > 0) ==> (
            is_char_boundary(bytes, c - 1) && is_char_boundary(bytes, c) && splice_ok(c - 1, 1, 0))
            &&& (inputs_pressed == Inputs::kb_delete() && len > 0 && c == len - 1)
                ==> is_char_boundary(bytes, len - 1)
            &&& (inputs_pressed == Inputs::kb_delete() && len > 0 && c < len - 1) ==> (
            is_char_boundary(bytes, c) && is_char_boundary(bytes, c + 1) && splice_ok(c, 1, 0))
        } else {
            &&& len + received.len() <= usize::MAX
            &&& c == len ==> len + received.len() <= u32::MAX
            &&& c < len ==> is_char_boundary(bytes, c) && splice_ok(c, 0, received.len() as int)
            &&& c < len ==> c + received_chars <= u32::MAX
        }
    }
}

/// Handles one frame of input of a text input whose cursor counts bytes:
/// backspace and delete remove a byte before or at the cursor, the arrows
/// move it, enter submits, escape cancels, and typed text is inserted at the
/// cursor. A hovered inactive input becomes active on a left click.
pub fn input_text_edit<T: TextStorage>(
    text: &mut T,
    state_cursor: u32,
    active: bool,
    hovered: bool,
    inputs_pressed: Inputs,
    received: &str,
) -> (r: InputTextOutcome)
    requires
        input_text_allowed(
            old(text).text_bytes(),
            state_cursor,
            active,
            inputs_pressed,
            received.spec_bytes(),
            received@.len() as int,
            |i: int, d: int, l: int| old(text).splice_ok(i, d, l),
        ),
    ensures
        ({
            let old_bytes = old(text).text_bytes();
            let new_bytes = final(text).text_bytes();
            let len = old_bytes.len() as int;
            let c = clamped_cursor(state_cursor, len);
            if input_text_receives(active, inputs_pressed, received.spec_bytes()) {
                if inputs_pressed == Inputs::kb_backspace() {
                    &&& r.active && r.set_active is None && r.submit == InputTextSubmit::Nothing
                    &&& r.changed == (len > 0)
                    &&& if len > 0 && c == len {
                        new_bytes == old_bytes.subrange(0, len - 1) && r.text_cursor == c - 1
                    } else if len > 0 && c > 0 {
                        new_bytes == spliced(old_bytes, c - 1, 1, Seq::empty())
                            && r.text_cursor == c - 1
                    } else {
                        new_bytes == old_bytes && r.text_cursor == c
                    }
                } else if inputs_pressed == Inputs::kb_delete() {
                    &&& r.active && r.set_active is None && r.submit == InputTextSubmit::Nothing
                    &&& r.changed == (len > 0)
                    &&& r.text_cursor == c
                    &&& if len > 0 && c == len - 1 {
                        new_bytes == old_bytes.subrange(0, len - 1)
                    } else if len > 0 && c < len - 1 {
                        new_bytes == spliced(old_bytes, c, 1, Seq::empty())
                    } else {
                        new_bytes == old_bytes
                    }
                } else if inputs_pressed == Inputs::kb_left_arrow() {
                    &&& r.active && !r.changed && r.set_active is None
                    &&& r.submit == InputTextSubmit::Nothing
                    &&& new_bytes == old_bytes
                    &&& r.text_cursor == if c > 0 {
                        c - 1
                    } else {
                        c
                    }
                } else if inputs_pressed == Inputs::kb_right_arrow() {
                    &&& r.active && !r.changed && r.set_active is None
                    &&& r.submit == InputTextSubmit::Nothing
                    &&& new_bytes == old_bytes
                    &&& r.text_cursor == if c < len {
                        c + 1
                    } else {
                        c
                    }
                } else if inputs_pressed == Inputs::kb_enter() {
                    &&& !r.active && !r.changed && r.set_active == Some(false)
                    &&& r.submit == InputTextSubmit::Submit
                    &&& new_bytes == old_bytes && r.text_cursor == c
                } else if inputs_pressed == Inputs::kb_escape() {
                    &&& !r.active && !r.changed && r.set_active == Some(false)
                    &&& r.submit == InputTextSubmit::Cancel
                    &&& new_bytes == old_bytes && r.text_cursor == c
                } else if inputs_pressed != Inputs::none() {
                    &&& r.active && !r.changed && r.set_active is None
                    &&& r.submit == InputTextSubmit::Nothing
                    &&& new_bytes == old_bytes && r.text_cursor == c
                } else {
                    &&& r.active && r.changed && r.set_active is None
                    &&& r.submit == InputTextSubmit::Nothing
                    &&& if c == len {
                        if old(text).holds(len as nat + received.spec_bytes().len()) {
                            new_bytes == old_bytes + received.spec_bytes() && r.text_cursor
                                == new_bytes.len()
                        } else {
                            new_bytes == old_bytes && r.text_cursor == len
                        }
                    } else {
                        &&& if old(text).holds(len as nat + received.spec_bytes().len()) {
                            new_bytes == spliced(old_bytes, c, 0, received.spec_bytes())
                        } else {
                            new_bytes == old_bytes
                        }
                        &&& r.text_cursor == c + received@.len()
                    }
                }
            } else if hovered && inputs_pressed == Inputs::mb_left() {
                &&& r.active && !r.changed && r.set_active == Some(true)
                &&& r.submit == InputTextSubmit::Nothing
                &&& new_bytes == old_bytes && r.text_cursor == c
            } else {
                &&& r.active == active && !r.changed && r.set_active is None
                &&& r.submit == InputTextSubmit::Nothing
                &&& new_bytes == old_bytes && r.text_cursor == c
            }
        }),
{
    let len = text.as_str().len();
    proof {
        encode_utf8_valid_utf8(received@);
    }
    let len32 = len as u32;
    let mut text_cursor: u32 = if state_cursor > len32 {
        len32
    } else {
        state_cursor
    };
    let receives = active && (received.len() > 0 || inputs_pressed != Inputs::none());
    if receives {
        if inputs_pressed != Inputs::none() {
            if inputs_pressed == Inputs::kb_backspace() {
                if len > 0 {
                    if text_cursor == len32 {
                        text.truncate(len - 1);
                        text_cursor = text_cursor - 1;
                    } else if text_cursor > 0 {
                        proof {
                            reveal_strlit("");
                        }
                        let r = text.try_splice((text_cursor - 1) as usize, 1, "");
                        text_cursor = text_cursor - 1;
                        assert(r is Ok);
                    }
                    InputTextOutcome {
                        text_cursor,
                        active: true,
                        changed: true,
                        submit: InputTextSubmit::Nothing,
                        set_active: None,
                    }
                } else {
                    InputTextOutcome {
                        text_cursor,
                        active: true,
                        changed: false,
                        submit: InputTextSubmit::Nothing,
                        set_active: None,
                    }
                }
            } else if inputs_pressed == Inputs::kb_delete() {
                if len > 0 {
                    if text_cursor == len32 - 1 {
                        text.truncate(len - 1);
                    } else if text_cursor < len32 - 1 {
                        proof {
                            reveal_strlit("");
                        }
                        let r = text.try_splice(text_cursor as usize, 1, "");
                        assert(r is Ok);
                    }
                    InputTextOutcome {
                        text_cursor,
                        active: true,
                        changed: true,
                        submit: InputTextSubmit::Nothing,
                        set_active: None,
                    }
                } else {
                    InputTextOutcome {
                        text_cursor,
                        active: true,
                        changed: false,
                        submit: InputTextSubmit::Nothing,
                        set_active: None,
                    }
                }
            } else if inputs_pressed == Inputs::kb_left_arrow() {
                if text_cursor > 0 {
                    text_cursor = text_cursor - 1;
                }
                InputTextOutcome {
                    text_cursor,
                    active: true,
                    changed: false,
                    submit: InputTextSubmit::Nothing,
                    set_active: None,
                }
            } else if inputs_pressed == Inputs::kb_right_arrow() {
                if text_cursor < len32 {
                    text_cursor = text_cursor + 1;
                }
                InputTextOutcome {
                    text_cursor,
                    active: true,
                    changed: false,
                    submit: InputTextSubmit::Nothing,
                    set_active: None,
                }
            } else if inputs_pressed == Inputs::kb_enter() {
                InputTextOutcome {
                    text_cursor,
                    active: false,
                    changed: false,
                    submit: InputTextSubmit::Submit,
                    set_active: Some(false),
                }
            } else if inputs_pressed == Inputs::kb_escape() {
                InputTextOutcome {
                    text_cursor,
                    active: false,
                    changed: false,
                    submit: InputTextSubmit::Cancel,
                    set_active: Some(false),
                }
            } else {
                InputTextOutcome {
                    text_cursor,
                    active: true,
                    changed: false,
                    submit: InputTextSubmit::Nothing,
                    set_active: None,
                }
            }
        } else {
            if text_cursor == len32 {
                let _ = text.try_extend(received);
                let new_len = text.as_str().len();
                text_cursor = new_len as u32;
            } else {
                let _ = text.try_splice(text_cursor as usize, 0, received);
                let count = received.unicode_len();
                text_cursor = text_cursor + count as u32;
            }
            InputTextOutcome {
                text_cursor,
                active: true,
                changed: true,
                submit: InputTextSubmit::Nothing,
                set_active: None,
            }
        }
    } else if hovered && inputs_pressed == Inputs::mb_left() {
        InputTextOutcome {
            text_cursor,
            active: true,
            changed: false,
            submit: InputTextSubmit::Nothing,
            set_active: Some(true),
        }
    } else {
        InputTextOutcome {
            text_cursor,
            active,
            changed: false,
            submit: InputTextSubmit::Nothing,
            set_active: None,
        }
    }
}

/// Whether `input_text_edit` may handle this frame of `text`: the test that
/// a caller makes before handing over a cursor and input that no verified
/// code has checked.
pub fn input_text_edit_allowed<T: TextStorage>(
    storage: &T,
    state_cursor: u32,
    active: bool,
    inputs_pressed: Inputs,
    received: &str,
) -> (r: bool)
    ensures
        r == input_text_allowed(
            storage.text_bytes(),
            state_cursor,
            active,
            inputs_pressed,
            received.spec_bytes(),
            received@.len() as int,
            |i: int, d: int, l: int| storage.splice_ok(i, d, l),
        ),
{
    let text = storage.as_str();
    let len = text.as_bytes().len();
    if len > u32::MAX as usize {
        return false;
    }
    let len32 = len as u32;
    let c: u32 = if state_cursor > len32 {
        len32
    } else {
        state_cursor
    };
    let cu = c as usize;
    let rlen = received.as_bytes().len();
    assert(clamped_cursor(state_cursor, len as int) == cu as int);
    if !(active && (rlen > 0 || inputs_pressed != Inputs::none())) {
        true
    } else if inputs_pressed != Inputs::none() {
        if inputs_pressed == Inputs::kb_backspace() && len > 0 {
            if cu == len {
                text.is_char_boundary(len - 1)
            } else if cu > 0 {
                text.is_char_boundary(cu - 1) && text.is_char_boundary(cu) && storage.can_splice(
                    cu - 1,
                    1,
                    0,
                )
            } else {
                true
            }
        } else if inputs_pressed == Inputs::kb_delete() && len > 0 {
            if cu == len - 1 {
                text.is_char_boundary(len - 1)
            } else if cu < len - 1 {
                text.is_char_boundary(cu) && text.is_char_boundary(cu + 1) && storage.can_splice(
                    cu,
                    1,
                    0,
                )
            } else {
                true
            }
        } else {
            true
        }
    } else if rlen > usize::MAX - len {
        false
    } else if cu == len {
        (len + rlen) as u64 <= u32::MAX as u64
    } else {
        text.is_char_boundary(cu) && storage.can_splice(cu, 0, rlen) && received.unicode_len() as u64
            <= (u32::MAX - c) as u64
    }
}

/// What a text input reports to its callback.
#[derive(Debug, Clone, Copy, PartialEq, Eq, Structural, Hash)]
pub enum TextInputAction {
    Nothing,
    Submit,
    Cancel,
}

/// The data that a text input hands to its callback after each frame.
#[derive(Debug, Clone, Copy, PartialEq, Eq, Structural, Hash)]
pub struct TextInputCallbackData {
    pub active: bool,
    pub changed: bool,
    pub action: TextInputAction,
}

/// What one frame of input does to a text input with a selection: the new
/// cursor and selection ends, whether it is active, whether the text changed,
/// the action to report, whether the control must be made active or
/// inactive, whether the keyboard deactivated it, and the text to put on the
/// clipboard, if any.
pub struct TextInputOutcome {
    pub text_cursor: usize,
    pub selection_start: usize,
    pub selection_end: usize,
    pub active: bool,
    pub changed: bool,
    pub action: TextInputAction,
    pub set_active: Option<bool>,
    pub deactivated_from_kb: bool,
    pub copied: Option<String>,
}

pub open spec fn min_int(a: int, b: int) -> int {
    if a <= b {
        a
    } else {
        b
    }
}

pub open spec fn max_int(a: int, b: int) -> int {
    if a <= b {
        b
    } else {
        a
    }
}

/// `bytes` without the bytes from `start` to `end`.
pub open spec fn removed(bytes: Seq<u8>, start: int, end: int) -> Seq<u8> {
    spliced(bytes, start, end - start, Seq::empty())
}

/// Whether a text input handles the pressed inputs with the held modifiers
/// itself; otherwise it inserts the received characters.
pub open spec fn text_input_handles(inputs: Inputs, modifiers: Modifiers) -> bool {
    ||| inputs == Inputs::kb_backspace()
    ||| inputs == Inputs::kb_delete()
    ||| inputs == Inputs::kb_left_arrow()
    ||| inputs == Inputs::kb_right_arrow()
    ||| inputs == Inputs::kb_enter()
    ||| inputs == Inputs::kb_escape()
    ||| inputs == Inputs::kb_a() && modifiers == Modifiers::ctrl()
    ||| (inputs == Inputs::kb_b() || inputs == Inputs::kb_f()) && (modifiers == Modifiers::ctrl()
        || modifiers.0 == Modifiers::ctrl().0 | Modifiers::shift().0)
    ||| (inputs == Inputs::kb_x() || inputs == Inputs::kb_c() || inputs == Inputs::kb_v())
        && modifiers == Modifiers::ctrl()
}

/// The last character boundary strictly before `i`, or 0.
pub open spec fn prev_boundary(bytes: Seq<u8>, i: int) -> int {
    if i == 0 {
        0
    } else {
        choose|r: int| #[trigger] is_floor_boundary(bytes, i - 1, r)
    }
}

/// The first character boundary strictly after `i`, or `i` at the end.
pub open spec fn next_boundary(bytes: Seq<u8>, i: int) -> int {
    if i >= bytes.len() {
        i
    } else {
        choose|r: int| #[trigger] is_ceil_boundary(bytes, i + 1, r)
    }
}

proof fn lemma_floor_unique(bytes: Seq<u8>, i: int, r: int)
    requires
        is_floor_boundary(bytes, i, r),
    ensures
        (choose|q: int| #[trigger] is_floor_boundary(bytes, i, q)) == r,
{
    let q = choose|q: int| #[trigger] is_floor_boundary(bytes, i, q);
    assert(is_floor_boundary(bytes, i, q));
    if q < r {
        assert(!is_char_boundary(bytes, r));
    } else if q > r {
        assert(!is_char_boundary(bytes, q));
    }
}

proof fn lemma_ceil_unique(bytes: Seq<u8>, i: int, r: int)
    requires
        is_ceil_boundary(bytes, i, r),
    ensures
        (choose|q: int| #[trigger] is_ceil_boundary(bytes, i, q)) == r,
{
    let q = choose|q: int| #[trigger] is_ceil_boundary(bytes, i, q);
    assert(is_ceil_boundary(bytes, i, q));
    if q < r {
        assert(!is_char_boundary(bytes, q));
    } else if q > r {
        assert(!is_char_boundary(bytes, r));
    }
}

/// `seek_prev` as a function of the bytes.
fn seek_prev_spec(index: usize, text: &str) -> (r: usize)
    requires
        index <= text.spec_bytes().len(),
    ensures
        r == prev_boundary(text.spec_bytes(), index as int),
        r <= index,
        is_char_boundary(text.spec_bytes(), r as int),
{
    proof {
        encode_utf8_valid_utf8(text@);
        is_char_boundary_start_end_of_seq(text.spec_bytes());
    }
    let r = seek_prev(index, text);
    proof {
        if index > 0 {
            lemma_floor_unique(text.spec_bytes(), index - 1, r as int);
        }
    }
    r
}

/// `seek_next` as a function of the bytes.
fn seek_next_spec(index: usize, text: &str) -> (r: usize)
    requires
        index <= text.spec_bytes().len(),
    ensures
        r == next_boundary(text.spec_bytes(), index as int),
        index <= r <= text.spec_bytes().len(),
        is_char_boundary(text.spec_bytes(), r as int) || r == index,
{
    let r = seek_next(index, text);
    proof {
        if index < text.spec_bytes().len() {
            lemma_ceil_unique(text.spec_bytes(), index + 1, r as int);
        }
    }
    r
}

/// The inputs on which handling a frame of a text input does not panic:
/// every range that is removed, replaced or copied has its ends on character
/// boundaries, and cursor arithmetic does not overflow.
pub open spec fn text_input_allowed(
    bytes: Seq<u8>,
    state_cursor: usize,
    state_start: usize,
    state_end: usize,
    active: bool,
    inputs: Inputs,
    modifiers: Modifiers,
    unfiltered_count: usize,
    received: Seq<u8>,
    clipboard: Seq<u8>,
    splice_ok: spec_fn(int, int, int) -> bool,
) -> bool {
    let len = bytes.len() as int;
    let c = min_int(state_cursor as int, len);
    let ss = min_int(state_start as int, len);
    let se = min_int(state_end as int, len);
    let lo = min_int(ss, se);
    let hi = max_int(ss, se);
    let ctrl = modifiers == Modifiers::ctrl();
    &&& len <= usize::MAX
    &&& active && (unfiltered_count > 0 || inputs != Inputs::none()) ==> {
        if !text_input_handles(inputs, modifiers) {
            &&& len + received.len() <= usize::MAX
            &&& lo != hi ==> is_char_boundary(bytes, lo) && is_char_boundary(bytes, hi) && lo
                + received.len() <= usize::MAX && splice_ok(lo, hi - lo, received.len() as int)
            &&& lo == hi && c != len ==> is_char_boundary(bytes, c) && c + received.len()
                <= usize::MAX && splice_ok(c, 0, received.len() as int)
        } else if inputs == Inputs::kb_backspace() {
            &&& len > 0 && lo == hi && 0 < c < len ==> is_char_boundary(bytes, c) && splice_ok(
                prev_boundary(bytes, c),
                c - prev_boundary(bytes, c),
                0,
            )
            &&& len > 0 && lo != hi ==> splice_ok(lo, hi - lo, 0)
        } else if inputs == Inputs::kb_delete() {
            &&& len > 0 && lo == hi && c < prev_boundary(bytes, len) ==> is_char_boundary(bytes, c)
                && splice_ok(c, next_boundary(bytes, c) - c, 0)
            &&& len > 0 && lo != hi ==> splice_ok(lo, hi - lo, 0)
        } else if inputs == Inputs::kb_x() {
            lo != hi ==> splice_ok(lo, hi - lo, 0)
        } else if inputs == Inputs::kb_v() {
            &&& is_char_boundary(bytes, lo)
            &&& is_char_boundary(bytes, hi)
            &&& len + clipboard.len() <= usize::MAX
            &&& c + clipboard.len() <= usize::MAX
            &&& splice_ok(lo, hi - lo, clipboard.len() as int)
        } else {
            true
        }
    }
    &&& active && (unfiltered_count > 0 || inputs != Inputs::none()) && lo != hi && (inputs
        == Inputs::kb_backspace() || inputs == Inputs::kb_delete() || ((inputs == Inputs::kb_x()
        || inputs == Inputs::kb_c()) && ctrl)) ==> is_char_boundary(bytes, lo) && is_char_boundary(
        bytes,
        hi,
    )
}

/// Whether the inputs are ones that a text input handles itself, rather
/// than taking the received text.
fn handles(inputs: Inputs, modifiers: Modifiers) -> (r: bool)
    ensures
        r == text_input_handles(inputs, modifiers),
{
    let ctrl = modifiers == Modifiers::ctrl();
    let ctrl_shift = modifiers.0 == (Modifiers::ctrl().0 | Modifiers::shift().0);
    inputs == Inputs::kb_backspace() || inputs == Inputs::kb_delete() || inputs
        == Inputs::kb_left_arrow() || inputs == Inputs::kb_right_arrow() || inputs
        == Inputs::kb_enter() || inputs == Inputs::kb_escape() || (inputs == Inputs::kb_a() && ctrl)
        || ((inputs == Inputs::kb_b() || inputs == Inputs::kb_f()) && (ctrl || ctrl_shift)) || ((
    inputs == Inputs::kb_x() || inputs == Inputs::kb_c() || inputs == Inputs::kb_v()) && ctrl)
}

/// Whether `text_input_edit` may handle this frame of `text`: the test that
/// a caller makes before handing over a cursor, a selection and input that
/// no verified code has checked.
pub fn text_input_edit_allowed<T: TextStorage>(
    storage: &T,
    state_cursor: usize,
    state_start: usize,
    state_end: usize,
    active: bool,
    inputs: Inputs,
    modifiers: Modifiers,
    unfiltered_count: usize,
    received: &str,
    clipboard: &str,
) -> (r: bool)
    ensures
        r == text_input_allowed(
            storage.text_bytes(),
            state_cursor,
            state_start,
            state_end,
            active,
            inputs,
            modifiers,
            unfiltered_count,
            received.spec_bytes(),
            clipboard.spec_bytes(),
            |i: int, d: int, l: int| storage.splice_ok(i, d, l),
        ),
{
    let text = storage.as_str();
    let len = text.as_bytes().len();
    let rlen = received.as_bytes().len();
    let clen = clipboard.as_bytes().len();
    let c = if state_cursor < len {
        state_cursor
    } else {
        len
    };
    let ss = if state_start < len {
        state_start
    } else {
        len
    };
    let se = if state_end < len {
        state_end
    } else {
        len
    };
    let lo = if ss < se {
        ss
    } else {
        se
    };
    let hi = if ss < se {
        se
    } else {
        ss
    };
    let ctrl = modifiers == Modifiers::ctrl();
    assert(c as int == min_int(state_cursor as int, len as int));
    assert(lo as int == min_int(ss as int, se as int));
    assert(hi as int == max_int(ss as int, se as int));
    if !(active && (unfiltered_count > 0 || inputs != Inputs::none())) {
        return true;
    }
    let ends_ok = text.is_char_boundary(lo) && text.is_char_boundary(hi);
    if lo != hi && (inputs == Inputs::kb_backspace() || inputs == Inputs::kb_delete() || ((inputs
        == Inputs::kb_x() || inputs == Inputs::kb_c()) && ctrl)) && !ends_ok {
        return false;
    }
    if !handles(inputs, modifiers) {
        if rlen > usize::MAX - len {
            false
        } else if lo != hi {
            ends_ok && rlen <= usize::MAX - lo && storage.can_splice(lo, hi - lo, rlen)
        } else if c != len {
            text.is_char_boundary(c) && rlen <= usize::MAX - c && storage.can_splice(c, 0, rlen)
        } else {
            true
        }
    } else if inputs == Inputs::kb_backspace() {
        if len > 0 && lo == hi && 0 < c && c < len {
            if text.is_char_boundary(c) {
                let p = seek_prev_spec(c, text);
                storage.can_splice(p, c - p, 0)
            } else {
                false
            }
        } else if len > 0 && lo != hi {
            storage.can_splice(lo, hi - lo, 0)
        } else {
            true
        }
    } else if inputs == Inputs::kb_delete() {
        let last = seek_prev_spec(len, text);
        if len > 0 && lo == hi && c < last {
            if text.is_char_boundary(c) {
                let n = seek_next_spec(c, text);
                storage.can_splice(c, n - c, 0)
            } else {
                false
            }
        } else if len > 0 && lo != hi {
            storage.can_splice(lo, hi - lo, 0)
        } else {
            true
        }
    } else if inputs == Inputs::kb_x() {
        if lo != hi {
            storage.can_splice(lo, hi - lo, 0)
        } else {
            true
        }
    } else if inputs == Inputs::kb_v() {
        ends_ok && clen <= usize::MAX - len && clen <= usize::MAX - c && storage.can_splice(
            lo,
            hi - lo,
            clen,
        )
    } else {
        true
    }
}

/// The bytes of `text` from `start` to `end`, as a new string.
fn copy_range(text: &str, start: usize, end: usize) -> (r: String)
    requires
        start <= end,
        is_char_boundary(text.spec_bytes(), start as int),
        is_char_boundary(text.spec_bytes(), end as int),
    ensures
        encode_utf8(r@) == text.spec_bytes().subrange(start as int, end as int),
{
    proof {
        encode_utf8_valid_utf8(text@);
        valid_utf8_split(text.spec_bytes(), start as int);
    }
    let (_, tail) = text.split_at(start);
    proof {
        let b = text.spec_bytes();
        let t = b.subrange(start as int, b.len() as int);
        assert(tail.spec_bytes() == t);
        assert forall|k: int| 0 <= k < t.len() implies (#[trigger] is_char_boundary(t, k))
            == is_char_boundary(b, start + k) by {
            is_char_boundary_iff_not_is_continuation_byte(t, k);
            is_char_boundary_iff_not_is_continuation_byte(b, start + k);
        }
        is_char_boundary_start_end_of_seq(t);
        assert(is_char_boundary(t, (end - start) as int));
    }
    let (mid, _) = tail.split_at(end - start);
    proof {
        assert(mid.spec_bytes() =~= text.spec_bytes().subrange(start as int, end as int));
        decode_utf8_encode_utf8(mid.spec_bytes());
    }
    let r = mid.to_owned();
    r
}

/// `r` reports the given cursor, selection, activity, change and action.
pub open spec fn text_input_outcome_is(
    r: TextInputOutcome,
    c: int,
    ss: int,
    se: int,
    active: bool,
    changed: bool,
    action: TextInputAction,
    set_active: Option<bool>,
    deactivated: bool,
) -> bool {
    &&& r.text_cursor == c
    &&& r.selection_start == ss
    &&& r.selection_end == se
    &&& r.active == active
    &&& r.changed == changed
    &&& r.action == action
    &&& r.set_active == set_active
    &&& r.deactivated_from_kb == deactivated
}

/// What typing does to a text input: the received text replaces the
/// selection, or is appended at the end, or inserted at the cursor; the
/// cursor moves past it. Where the storage cannot hold the new text
/// (`holds`), the text stays as it was.
pub open spec fn text_input_typed(
    old_bytes: Seq<u8>,
    new_bytes: Seq<u8>,
    r: TextInputOutcome,
    c: int,
    lo: int,
    hi: int,
    received: Seq<u8>,
    holds: spec_fn(nat) -> bool,
) -> bool {
    let len = old_bytes.len() as int;
    &&& r.active && r.changed && r.action == TextInputAction::Nothing
    &&& r.set_active is None && !r.deactivated_from_kb && r.copied is None
    &&& r.selection_start == r.text_cursor && r.selection_end == r.text_cursor
    &&& if lo != hi {
        let typed = spliced(old_bytes, lo, hi - lo, received);
        &&& new_bytes == (if holds(typed.len()) { typed } else { old_bytes })
        &&& r.text_cursor == lo + received.len()
    } else if c == len {
        let typed = old_bytes + received;
        &&& new_bytes == (if holds(typed.len()) { typed } else { old_bytes })
        &&& r.text_cursor == new_bytes.len()
    } else {
        let typed = spliced(old_bytes, c, 0, received);
        &&& new_bytes == (if holds(typed.len()) { typed } else { old_bytes })
        &&& r.text_cursor == c + received.len()
    }
}

/// Typing puts the received bytes where the cursor or the selection was and
/// leaves the cursor right after them. With no selection the new text is the
/// old text up to the cursor, the received bytes, and the rest of the old text;
/// at the end of the text that is the old text with the received bytes
/// appended, and the cursor is at the new end. With a selection the received
/// bytes take its place. Where the storage cannot hold the result, the text is
/// unchanged.
pub proof fn law_typing_inserts_at_cursor(
    old_bytes: Seq<u8>,
    new_bytes: Seq<u8>,
    r: TextInputOutcome,
    c: int,
    lo: int,
    hi: int,
    received: Seq<u8>,
    holds: spec_fn(nat) -> bool,
)
    requires
        0 <= c <= old_bytes.len(),
        0 <= lo <= hi <= old_bytes.len(),
        text_input_typed(old_bytes, new_bytes, r, c, lo, hi, received, holds),
    ensures
        r.selection_start == r.text_cursor,
        r.selection_end == r.text_cursor,
        r.changed,
        lo == hi && holds((old_bytes.len() + received.len()) as nat) ==> {
            &&& new_bytes == old_bytes.subrange(0, c) + received + old_bytes.subrange(
                c,
                old_bytes.len() as int,
            )
            &&& new_bytes.len() == old_bytes.len() + received.len()
            &&& r.text_cursor == c + received.len()
        },
        lo == hi && c == old_bytes.len() ==> r.text_cursor == new_bytes.len(),
        lo != hi && holds((old_bytes.len() - (hi - lo) + received.len()) as nat) ==> {
            &&& new_bytes == old_bytes.subrange(0, lo) + received + old_bytes.subrange(
                hi,
                old_bytes.len() as int,
            )
            &&& new_bytes.len() == old_bytes.len() - (hi - lo) + received.len()
        },
        lo != hi ==> r.text_cursor == lo + received.len(),
        lo == hi && !holds((old_bytes.len() + received.len()) as nat) ==> new_bytes == old_bytes,
        lo != hi && !holds((old_bytes.len() - (hi - lo) + received.len()) as nat) ==> new_bytes
            == old_bytes,
{
    let len = old_bytes.len() as int;
    if lo == hi && c == len {
        assert(old_bytes.subrange(0, c) =~= old_bytes);
        assert(old_bytes.subrange(c, len) =~= Seq::<u8>::empty());
        assert(old_bytes.subrange(0, c) + received + old_bytes.subrange(c, len) =~= old_bytes
            + received);
    }
}

/// Handles one frame of input of a text input with a selection: backspace
/// and delete remove the selection or the character before or at the
/// cursor; the arrows (and control with B and F) move the cursor, extending
/// the selection while shift is held; control with A selects all, with X
/// cuts, with C copies and with V pastes `clipboard`; enter submits and
/// escape cancels. Other inputs insert the received text. A hovered
/// inactive input becomes active on a left click, with the cursor at the end.
#[verifier::spinoff_prover]
#[verifier::rlimit(40)]
pub fn text_input_edit<T: TextStorage>(
    text: &mut T,
    state_cursor: usize,
    state_start: usize,
    state_end: usize,
    active: bool,
    hovered: bool,
    inputs: Inputs,
    modifiers: Modifiers,
    unfiltered_count: usize,
    received: &str,
    clipboard: &str,
) -> (r: TextInputOutcome)
    requires
        text_input_allowed(
            old(text).text_bytes(),
            state_cursor,
            state_start,
            state_end,
            active,
            inputs,
            modifiers,
            unfiltered_count,
            received.spec_bytes(),
            clipboard.spec_bytes(),
            |i: int, d: int, l: int| old(text).splice_ok(i, d, l),
        ),
    ensures
        ({
            let ob = old(text).text_bytes();
            let nb = final(text).text_bytes();
            let len = ob.len() as int;
            let c = min_int(state_cursor as int, len);
            let ss = min_int(state_start as int, len);
            let se = min_int(state_end as int, len);
            let lo = min_int(ss, se);
            let hi = max_int(ss, se);
            let ctrl = modifiers == Modifiers::ctrl();
            let ctrl_shift = modifiers.0 == Modifiers::ctrl().0 | Modifiers::shift().0;
            let shift = modifiers.0 & Modifiers::shift().0 != 0;
            let nothing = TextInputAction::Nothing;
            if active && (unfiltered_count > 0 || inputs != Inputs::none()) {
                if !text_input_handles(inputs, modifiers) {
                    text_input_typed(ob, nb, r, c, lo, hi, received.spec_bytes(), |n: nat| old(text).holds(n))
                } else if inputs == Inputs::kb_backspace() {
                    &&& r.copied is None
                    &&& if len == 0 {
                        nb == ob && text_input_outcome_is(r, c, ss, se, true, false, nothing, None, false)
                    } else if lo != hi {
                        nb == removed(ob, lo, hi) && text_input_outcome_is(r, lo, lo, lo, true, true, nothing, None, false)
                    } else if c == len {
                        let p = prev_boundary(ob, c);
                        nb == ob.subrange(0, p) && text_input_outcome_is(r, p, p, p, true, true, nothing, None, false)
                    } else if c > 0 {
                        let p = prev_boundary(ob, c);
                        nb == removed(ob, p, c) && text_input_outcome_is(r, p, p, p, true, true, nothing, None, false)
                    } else {
                        nb == ob && text_input_outcome_is(r, c, ss, se, true, true, nothing, None, false)
                    }
                } else if inputs == Inputs::kb_delete() {
                    let last = prev_boundary(ob, len);
                    &&& r.copied is None
                    &&& if len == 0 {
                        nb == ob && text_input_outcome_is(r, c, ss, se, true, false, nothing, None, false)
                    } else if lo != hi {
                        nb == removed(ob, lo, hi) && text_input_outcome_is(r, lo, lo, lo, true, true, nothing, None, false)
                    } else if c == last {
                        nb == ob.subrange(0, last) && text_input_outcome_is(r, c, c, c, true, true, nothing, None, false)
                    } else if c < last {
                        nb == removed(ob, c, next_boundary(ob, c)) && text_input_outcome_is(r, c, c, c, true, true, nothing, None, false)
                    } else {
                        nb == ob && text_input_outcome_is(r, c, ss, se, true, true, nothing, None, false)
                    }
                } else if inputs == Inputs::kb_a() {
                    nb == ob && r.copied is None && text_input_outcome_is(r, 0, 0, len, true, false, nothing, None, false)
                } else if inputs == Inputs::kb_left_arrow() || inputs == Inputs::kb_right_arrow() {
                    let p = if inputs == Inputs::kb_left_arrow() {
                        prev_boundary(ob, c)
                    } else {
                        next_boundary(ob, c)
                    };
                    nb == ob && r.copied is None && text_input_outcome_is(r, p, if shift { ss } else { p }, p, true, false, nothing, None, false)
                } else if inputs == Inputs::kb_b() || inputs == Inputs::kb_f() {
                    let p = if inputs == Inputs::kb_b() {
                        prev_boundary(ob, c)
                    } else {
                        next_boundary(ob, c)
                    };
                    nb == ob && r.copied is None && text_input_outcome_is(r, p, if ctrl { p } else { ss }, p, true, false, nothing, None, false)
                } else if inputs == Inputs::kb_x() {
                    if lo != hi {
                        &&& nb == removed(ob, lo, hi)
                        &&& r.copied matches Some(s) && encode_utf8(s@) == ob.subrange(lo, hi)
                        &&& text_input_outcome_is(r, lo, lo, lo, true, false, nothing, None, false)
                    } else {
                        nb == ob && r.copied is None && text_input_outcome_is(r, c, ss, se, true, false, nothing, None, false)
                    }
                } else if inputs == Inputs::kb_c() {
                    &&& nb == ob
                    &&& text_input_outcome_is(r, c, ss, se, true, false, nothing, None, false)
                    &&& if lo != hi {
                        r.copied matches Some(s) && encode_utf8(s@) == ob.subrange(lo, hi)
                    } else {
                        r.copied is None
                    }
                } else if inputs == Inputs::kb_v() {
                    let p = c + clipboard.spec_bytes().len();
                    &&& if old(text).holds(spliced(ob, lo, hi - lo, clipboard.spec_bytes()).len()) {
                        nb == spliced(ob, lo, hi - lo, clipboard.spec_bytes())
                    } else {
                        nb == ob
                    }
                    &&& r.copied is None
                    &&& text_input_outcome_is(r, p, p, p, true, false, nothing, None, false)
                } else if inputs == Inputs::kb_enter() {
                    nb == ob && r.copied is None && text_input_outcome_is(r, c, ss, se, false, false, TextInputAction::Submit, Some(false), true)
                } else {
                    nb == ob && r.copied is None && text_input_outcome_is(r, c, ss, se, false, false, TextInputAction::Cancel, Some(false), true)
                }
            } else if hovered && inputs == Inputs::mb_left() {
                nb == ob && r.copied is None && text_input_outcome_is(r, len, len, len, true, false, nothing, Some(true), false)
            } else {
                nb == ob && r.copied is None && text_input_outcome_is(r, c, ss, se, active, false, nothing, None, false)
            }
        }),
        ({
            let ob = old(text).text_bytes();
            let nb = final(text).text_bytes();
            let len = ob.len() as int;
            let rb = received.spec_bytes();
            let c = min_int(state_cursor as int, len);
            let lo = min_int(min_int(state_start as int, len), min_int(state_end as int, len));
            let hi = max_int(min_int(state_start as int, len), min_int(state_end as int, len));
            let typing = active && (unfiltered_count > 0 || inputs != Inputs::none())
                && !text_input_handles(inputs, modifiers);
            typing ==> {
                &&& r.selection_start == r.text_cursor && r.selection_end == r.text_cursor
                &&& lo == hi && old(text).holds((len + rb.len()) as nat) ==> nb == ob.subrange(0, c)
                    + rb + ob.subrange(c, len) && r.text_cursor == c + rb.len()
                &&& lo == hi && c == len ==> r.text_cursor == nb.len()
                &&& lo != hi && old(text).holds((len - (hi - lo) + rb.len()) as nat) ==> nb
                    == ob.subrange(0, lo) + rb + ob.subrange(hi, len)
                &&& lo != hi ==> r.text_cursor == lo + rb.len()
            }
        }),
{
    let len = text.as_str().len();
    proof {
        encode_utf8_valid_utf8(received@);
        encode_utf8_valid_utf8(clipboard@);
        reveal_strlit("");
    }
    let mut c: usize = if state_cursor < len { state_cursor } else { len };
    let mut ss: usize = if state_start < len { state_start } else { len };
    let mut se: usize = if state_end < len { state_end } else { len };
    let receives = active && (unfiltered_count > 0 || inputs != Inputs::none());
    if receives {
        let lo = if ss <= se { ss } else { se };
        let hi = if ss <= se { se } else { ss };
        let ctrl = modifiers == Modifiers::ctrl();
        let ctrl_shift = modifiers.0 == (Modifiers::ctrl().0 | Modifiers::shift().0);
        let mut handled = true;
        let mut outcome_changed = true;
        let mut action = TextInputAction::Nothing;
        let mut outcome_active = true;
        let mut set_active: Option<bool> = None;
        let mut deactivated = false;
        let mut copied: Option<String> = None;
        if inputs == Inputs::kb_backspace() {
            if len > 0 {
                if lo != hi {
                    let _ = text.try_splice(lo, hi - lo, "");
                    c = lo;
                    ss = lo;
                    se = lo;
                } else if c == len {
                    let p = seek_prev_spec(c, text.as_str());
                    text.truncate(p);
                    c = p;
                    ss = p;
                    se = p;
                } else if c > 0 {
                    let p = seek_prev_spec(c, text.as_str());
                    let _ = text.try_splice(p, c - p, "");
                    c = p;
                    ss = p;
                    se = p;
                }
            } else {
                outcome_changed = false;
            }
        } else if inputs == Inputs::kb_delete() {
            if len > 0 {
                let last = seek_prev_spec(len, text.as_str());
                if lo != hi {
                    let _ = text.try_splice(lo, hi - lo, "");
                    c = lo;
                    ss = lo;
                    se = lo;
                } else if c == last {
                    text.truncate(last);
                    ss = c;
                    se = c;
                } else if c < last {
                    let n = seek_next_spec(c, text.as_str());
                    let _ = text.try_splice(c, n - c, "");
                    ss = c;
                    se = c;
                }
            } else {
                outcome_changed = false;
            }
        } else if inputs == Inputs::kb_a() {
            if ctrl {
                c = 0;
                ss = 0;
                se = len;
                outcome_changed = false;
            } else {
                handled = false;
            }
        } else if inputs == Inputs::kb_left_arrow() {
            c = seek_prev_spec(c, text.as_str());
            se = c;
            if !modifiers.intersects(Modifiers::shift()) {
                ss = c;
            }
            outcome_changed = false;
        } else if inputs == Inputs::kb_b() {
            if ctrl || ctrl_shift {
                c = seek_prev_spec(c, text.as_str());
                if ctrl {
                    ss = c;
                }
                se = c;
                outcome_changed = false;
            } else {
                handled = false;
            }
        } else if inputs == Inputs::kb_right_arrow() {
            c = seek_next_spec(c, text.as_str());
            se = c;
            if !modifiers.intersects(Modifiers::shift()) {
                ss = c;
            }
            outcome_changed = false;
        } else if inputs == Inputs::kb_f() {
            if ctrl || ctrl_shift {
                c = seek_next_spec(c, text.as_str());
                if ctrl {
                    ss = c;
                }
                se = c;
                outcome_changed = false;
            } else {
                handled = false;
            }
        } else if inputs == Inputs::kb_x() {
            if ctrl {
                if ss != se {
                    copied = Some(copy_range(text.as_str(), lo, hi));
                    let _ = text.try_splice(lo, hi - lo, "");
                    c = lo;
                    ss = lo;
                    se = lo;
                }
                outcome_changed = false;
            } else {
                handled = false;
            }
        } else if inputs == Inputs::kb_c() {
            if ctrl {
                if ss != se {
                    copied = Some(copy_range(text.as_str(), lo, hi));
                }
                outcome_changed = false;
            } else {
                handled = false;
            }
        } else if inputs == Inputs::kb_v() {
            if ctrl {
                let _ = text.try_splice(lo, hi - lo, clipboard);
                c = c + clipboard.len();
                ss = c;
                se = c;
                outcome_changed = false;
            } else {
                handled = false;
            }
        } else if inputs == Inputs::kb_enter() {
            set_active = Some(false);
            deactivated = true;
            outcome_active = false;
            outcome_changed = false;
            action = TextInputAction::Submit;
        } else if inputs == Inputs::kb_escape() {
            set_active = Some(false);
            deactivated = true;
            outcome_active = false;
            outcome_changed = false;
            action = TextInputAction::Cancel;
        } else {
            handled = false;
        }
        if handled {
            TextInputOutcome {
                text_cursor: c,
                selection_start: ss,
                selection_end: se,
                active: outcome_active,
                changed: outcome_changed,
                action,
                set_active,
                deactivated_from_kb: deactivated,
                copied,
            }
        } else {
            let ghost c0: int = c as int;
            if ss != se {
                let _ = text.try_splice(lo, hi - lo, received);
                c = lo + received.len();
            } else if c == len {
                let _ = text.try_extend(received);
                c = text.as_str().len();
            } else {
                let _ = text.try_splice(c, 0, received);
                c = c + received.len();
            }
            let typed = TextInputOutcome {
                text_cursor: c,
                selection_start: c,
                selection_end: c,
                active: true,
                changed: true,
                action: TextInputAction::Nothing,
                set_active: None,
                deactivated_from_kb: false,
                copied: None,
            };
            proof {
                law_typing_inserts_at_cursor(
                    old(text).text_bytes(),
                    text.text_bytes(),
                    typed,
                    c0,
                    lo as int,
                    hi as int,
                    received.spec_bytes(),
                    |n: nat| old(text).holds(n),
                );
            }
            typed
        }
    } else if hovered && inputs == Inputs::mb_left() {
        TextInputOutcome {
            text_cursor: len,
            selection_start: len,
            selection_end: len,
            active: true,
            changed: false,
            action: TextInputAction::Nothing,
            set_active: Some(true),
            deactivated_from_kb: false,
            copied: None,
        }
    } else {
        TextInputOutcome {
            text_cursor: c,
            selection_start: ss,
            selection_end: se,
            active,
            changed: false,
            action: TextInputAction::Nothing,
            set_active: None,
            deactivated_from_kb: false,
            copied: None,
        }
    }
}

} // verus!
