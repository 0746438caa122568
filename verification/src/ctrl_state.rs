//! The state bytes that each control keeps from frame to frame, and the
//! little-endian fields that the widgets keep in them.
use vstd::prelude::*;

verus! {

/// The state memory of a control.
pub type CtrlState = [u8; 64];

/// The unsigned number stored little-endian in the four bytes of `s` that
/// start at `at`.
pub open spec fn le_u32_at(s: Seq<u8>, at: int) -> int {
    s[at] + 256 * s[at + 1] + 65536 * s[at + 2] + 16777216 * s[at + 3]
}

/// `s` and `t` agree everywhere but on the `n` bytes that start at `at`.
pub open spec fn same_outside(s: Seq<u8>, t: Seq<u8>, at: int, n: int) -> bool {
    &&& s.len() == t.len()
    &&& forall|i: int| 0 <= i < s.len() && !(at <= i < at + n) ==> s[i] == t[i]
}

proof fn lemma_le_u32_bounds(s: Seq<u8>, at: int)
    requires
        0 <= at,
        at + 4 <= s.len(),
    ensures
        0 <= le_u32_at(s, at) <= u32::MAX,
{
    let b0 = s[at] as int;
    let b1 = s[at + 1] as int;
    let b2 = s[at + 2] as int;
    let b3 = s[at + 3] as int;
    assert(0 <= b0 + 256 * b1 + 65536 * b2 + 16777216 * b3 <= u32::MAX) by (nonlinear_arith)
        requires
            0 <= b0 < 256,
            0 <= b1 < 256,
            0 <= b2 < 256,
            0 <= b3 < 256,
    ;
}

/// Reads the unsigned number stored little-endian at byte `at` of `state`.
fn read_u32(state: &CtrlState, at: usize) -> (r: u32)
    requires
        at + 4 <= 64,
    ensures
        r == le_u32_at(state@, at as int),
{
    proof {
        lemma_le_u32_bounds(state@, at as int);
    }
    let b0 = state[at] as u32;
    let b1 = state[at + 1] as u32;
    let b2 = state[at + 2] as u32;
    let b3 = state[at + 3] as u32;
    assert(b0 + 256 * b1 + 65536 * b2 + 16777216 * b3 <= u32::MAX);
    b0 + 256 * b1 + 65536 * b2 + 16777216 * b3
}

/// Writes `v` little-endian into the four bytes of `state` at `at`.
fn write_u32(state: &mut CtrlState, at: usize, v: u32)
    requires
        at + 4 <= 64,
    ensures
        le_u32_at(final(state)@, at as int) == v,
        same_outside(old(state)@, final(state)@, at as int, 4),
{
    let b0 = (v % 256) as u8;
    let b1 = ((v / 256) % 256) as u8;
    let b2 = ((v / 65536) % 256) as u8;
    let b3 = (v / 16777216) as u8;
    proof {
        let x = v as int;
        assert(x == x % 256 + 256 * ((x / 256) % 256) + 65536 * ((x / 65536) % 256) + 16777216 * (
        x / 16777216)) by (nonlinear_arith)
            requires
                0 <= x <= u32::MAX,
        ;
        assert(x / 16777216 < 256) by (nonlinear_arith)
            requires
                0 <= x <= u32::MAX,
        ;
    }
    state[at] = b0;
    state[at + 1] = b1;
    state[at + 2] = b2;
    state[at + 3] = b3;
}

/// The text cursor of a text input, kept in bytes 0 to 3.
pub fn text_cursor(state: &CtrlState) -> (r: u32)
    ensures
        r == le_u32_at(state@, 0),
{
    read_u32(state, 0)
}

/// Keeps `text_cursor` in bytes 0 to 3, leaving the other bytes as they were.
pub fn set_text_cursor(state: &mut CtrlState, text_cursor: u32)
    ensures
        le_u32_at(final(state)@, 0) == text_cursor,
        same_outside(old(state)@, final(state)@, 0, 4),
{
    write_u32(state, 0, text_cursor)
}

/// The value that an integer drag started from, kept in bytes 4 to 7.
pub fn value(state: &CtrlState) -> (r: i32)
    ensures
        r == (le_u32_at(state@, 4) as u32) as i32,
{
    let u = read_u32(state, 4);
    u as i32
}

/// Keeps `value` in bytes 4 to 7, leaving the other bytes as they were.
pub fn set_value(state: &mut CtrlState, value: i32)
    ensures
        (le_u32_at(final(state)@, 4) as u32) as i32 == value,
        same_outside(old(state)@, final(state)@, 4, 4),
{
    let u = value as u32;
    assert((u as i32) == value) by (bit_vector)
        requires
            u == value as u32,
    ;
    write_u32(state, 4, u)
}

/// Whether a dropdown is open, kept in byte 0 (1 means open).
pub fn open(state: &CtrlState) -> (r: bool)
    ensures
        r == (state@[0] == 1),
{
    state[0] == 1
}

/// Keeps whether a dropdown is open in byte 0, leaving the other bytes as
/// they were.
pub fn set_open(state: &mut CtrlState, open: bool)
    ensures
        final(state)@[0] == (if open { 1u8 } else { 0u8 }),
        same_outside(old(state)@, final(state)@, 0, 1),
{
    state[0] = if open {
        1
    } else {
        0
    };
}

/// Reading a field gives back what was last written to it, and writing one
/// field keeps the others: a text cursor, a drag start value and the open
/// flag live in bytes of their own (the open flag shares byte 0 with the
/// text cursor, which no control keeps together).
pub proof fn law_state_fields(s: Seq<u8>, t: Seq<u8>, at: int, n: int, other: int)
    requires
        s.len() == 64,
        same_outside(s, t, at, n),
        0 <= other,
        other + 4 <= 64,
        other + 4 <= at || at + n <= other,
    ensures
        le_u32_at(t, other) == le_u32_at(s, other),
{
    assert(s[other] == t[other]);
    assert(s[other + 1] == t[other + 1]);
    assert(s[other + 2] == t[other + 2]);
    assert(s[other + 3] == t[other + 3]);
}

} // verus!
