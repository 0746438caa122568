//! Bit sets: the inputs (mouse buttons and keys) that the platform reports,
//! and the flags that tune how a control behaves.
use vstd::prelude::*;

verus! {

/// A set of mouse buttons and keyboard keys, one bit each.
#[derive(Debug, Clone, Copy, PartialEq, Eq, Structural, Hash)]
pub struct Inputs(pub u32);

/// Every bit that names an input.
pub open spec fn inputs_all_bits() -> u32 {
    0x1f_ffff
}

impl Inputs {
    #[verifier::allow_in_spec]
    pub fn mb_left() -> Self
        returns
            Self(0x01),
    {
        Self(0x01)
    }

    #[verifier::allow_in_spec]
    pub fn mb_right() -> Self
        returns
            Self(0x02),
    {
        Self(0x02)
    }

    #[verifier::allow_in_spec]
    pub fn mb_middle() -> Self
        returns
            Self(0x04),
    {
        Self(0x04)
    }

    #[verifier::allow_in_spec]
    pub fn mb_4() -> Self
        returns
            Self(0x08),
    {
        Self(0x08)
    }

    #[verifier::allow_in_spec]
    pub fn mb_5() -> Self
        returns
            Self(0x10),
    {
        Self(0x10)
    }

    #[verifier::allow_in_spec]
    pub fn mb_6() -> Self
        returns
            Self(0x20),
    {
        Self(0x20)
    }

    #[verifier::allow_in_spec]
    pub fn mb_7() -> Self
        returns
            Self(0x40),
    {
        Self(0x40)
    }

    #[verifier::allow_in_spec]
    pub fn kb_tab() -> Self
        returns
            Self(0x80),
    {
        Self(0x80)
    }

    #[verifier::allow_in_spec]
    pub fn kb_left_arrow() -> Self
        returns
            Self(0x100),
    {
        Self(0x100)
    }

    #[verifier::allow_in_spec]
    pub fn kb_right_arrow() -> Self
        returns
            Self(0x200),
    {
        Self(0x200)
    }

    #[verifier::allow_in_spec]
    pub fn kb_up_arrow() -> Self
        returns
            Self(0x400),
    {
        Self(0x400)
    }

    #[verifier::allow_in_spec]
    pub fn kb_down_arrow() -> Self
        returns
            Self(0x800),
    {
        Self(0x800)
    }

    #[verifier::allow_in_spec]
    pub fn kb_page_up() -> Self
        returns
            Self(0x1000),
    {
        Self(0x1000)
    }

    #[verifier::allow_in_spec]
    pub fn kb_page_down() -> Self
        returns
            Self(0x2000),
    {
        Self(0x2000)
    }

    #[verifier::allow_in_spec]
    pub fn kb_home() -> Self
        returns
            Self(0x4000),
    {
        Self(0x4000)
    }

    #[verifier::allow_in_spec]
    pub fn kb_end() -> Self
        returns
            Self(0x8000),
    {
        Self(0x8000)
    }

    #[verifier::allow_in_spec]
    pub fn kb_insert() -> Self
        returns
            Self(0x10000),
    {
        Self(0x10000)
    }

    #[verifier::allow_in_spec]
    pub fn kb_delete() -> Self
        returns
            Self(0x20000),
    {
        Self(0x20000)
    }

    #[verifier::allow_in_spec]
    pub fn kb_backspace() -> Self
        returns
            Self(0x40000),
    {
        Self(0x40000)
    }

    #[verifier::allow_in_spec]
    pub fn kb_enter() -> Self
        returns
            Self(0x80000),
    {
        Self(0x80000)
    }

    #[verifier::allow_in_spec]
    pub fn kb_escape() -> Self
        returns
            Self(0x100000),
    {
        Self(0x100000)
    }

    // Letter keys that text inputs react to together with modifiers.
    #[verifier::allow_in_spec]
    pub fn kb_a() -> Self
        returns
            Self(0x20_0000),
    {
        Self(0x20_0000)
    }

    #[verifier::allow_in_spec]
    pub fn kb_b() -> Self
        returns
            Self(0x40_0000),
    {
        Self(0x40_0000)
    }

    #[verifier::allow_in_spec]
    pub fn kb_c() -> Self
        returns
            Self(0x80_0000),
    {
        Self(0x80_0000)
    }

    #[verifier::allow_in_spec]
    pub fn kb_f() -> Self
        returns
            Self(0x100_0000),
    {
        Self(0x100_0000)
    }

    #[verifier::allow_in_spec]
    pub fn kb_v() -> Self
        returns
            Self(0x200_0000),
    {
        Self(0x200_0000)
    }

    #[verifier::allow_in_spec]
    pub fn kb_x() -> Self
        returns
            Self(0x400_0000),
    {
        Self(0x400_0000)
    }

    #[verifier::allow_in_spec]
    pub fn none() -> Self
        returns
            Self(0),
    {
        Self(0)
    }

    /// The union of all the inputs above.
    #[verifier::allow_in_spec]
    pub fn all() -> Self
        returns
            Self(0x1f_ffff),
    {
        Self(0x1f_ffff)
    }

    /// The bits of the set.
    pub fn bits(&self) -> (r: u32)
        ensures
            r == self.0,
    {
        self.0
    }

    /// The set of the inputs whose bits are set in `bits`; other bits are
    /// dropped.
    pub fn from_bits_truncate(bits: u32) -> (r: Self)
        ensures
            r.0 == inputs_all_bits() & bits,
    {
        Self(0x1f_ffff & bits)
    }

    /// The empty set.
    pub fn empty() -> (r: Self)
        ensures
            r.0 == 0,
    {
        Self(0)
    }

    /// Whether the two sets share an input.
    pub fn intersects(&self, other: Self) -> (r: bool)
        ensures
            r == (self.0 & other.0 != 0),
    {
        self.0 & other.0 != 0
    }

    /// The union of the two sets.
    pub fn union(self, other: Self) -> (r: Self)
        ensures
            r.0 == self.0 | other.0,
    {
        Self(self.0 | other.0)
    }
}

/// A set of held modifier keys, one bit each.
#[derive(Debug, Clone, Copy, PartialEq, Eq, Structural, Hash)]
pub struct Modifiers(pub u32);

impl Modifiers {
    #[verifier::allow_in_spec]
    pub fn ctrl() -> Self
        returns
            Self(0x01),
    {
        Self(0x01)
    }

    #[verifier::allow_in_spec]
    pub fn shift() -> Self
        returns
            Self(0x02),
    {
        Self(0x02)
    }

    #[verifier::allow_in_spec]
    pub fn none() -> Self
        returns
            Self(0),
    {
        Self(0)
    }

    /// Whether the two sets share a modifier.
    pub fn intersects(&self, other: Self) -> (r: bool)
        ensures
            r == (self.0 & other.0 != 0),
    {
        self.0 & other.0 != 0
    }

    /// The union of the two sets.
    pub fn union(self, other: Self) -> (r: Self)
        ensures
            r.0 == self.0 | other.0,
    {
        Self(self.0 | other.0)
    }
}

/// A set of flags of a control, one bit each.
#[derive(Debug, Clone, Copy, PartialEq, Eq, Structural, Hash)]
pub struct CtrlFlags(pub u32);

/// Every bit that names a flag.
pub open spec fn ctrl_flags_all_bits() -> u32 {
    0xf7
}

impl CtrlFlags {
    /// Whether the control should be affected by user interaction generated
    /// scrolling (and therefore capture scroll events when there is someplace
    /// to scroll). Regardless of this flag, controls can be scrolled
    /// programmatically.
    #[verifier::allow_in_spec]
    pub fn capture_scroll() -> Self
        returns
            Self(0x01),
    {
        Self(0x01)
    }

    /// Whether the control should report being hovered (and therefore capture
    /// hover events). Hovering is tracked internally regardless of this flag,
    /// but not setting the flag lets the hover event flow to parent controls.
    #[verifier::allow_in_spec]
    pub fn capture_hover() -> Self
        returns
            Self(0x02),
    {
        Self(0x02)
    }

    /// Whether the control should become active if one of its children becomes
    /// inactive. Controls can become active programmatically regardless of
    /// this flag.
    #[verifier::allow_in_spec]
    pub fn capture_active() -> Self
        returns
            Self(0x04),
    {
        Self(0x04)
    }

    /// Whether to attempt shrinking the control's rect width to the width of
    /// its inline contents (text or geometry) before layout and render. This
    /// will only ever shrink and never grow.
    #[verifier::allow_in_spec]
    pub fn shrink_to_fit_inline_horizontal() -> Self
        returns
            Self(0x10),
    {
        Self(0x10)
    }

    /// Whether to attempt shrinking the control's rect height to the height
    /// of its inline contents (text or geometry) before layout and render.
    /// This will only ever shrink and never grow.
    #[verifier::allow_in_spec]
    pub fn shrink_to_fit_inline_vertical() -> Self
        returns
            Self(0x20),
    {
        Self(0x20)
    }

    /// Whether to resize the control's rect width to the width of its
    /// contents, child or inline.
    #[verifier::allow_in_spec]
    pub fn resize_to_fit_horizontal() -> Self
        returns
            Self(0x40),
    {
        Self(0x40)
    }

    /// Whether to resize the control's rect height to the height of its
    /// contents, child or inline.
    #[verifier::allow_in_spec]
    pub fn resize_to_fit_vertical() -> Self
        returns
            Self(0x80),
    {
        Self(0x80)
    }

    #[verifier::allow_in_spec]
    pub fn none() -> Self
        returns
            Self(0),
    {
        Self(0)
    }

    /// The union of all the flags above.
    #[verifier::allow_in_spec]
    pub fn all() -> Self
        returns
            Self(0xf7),
    {
        Self(0xf7)
    }

    /// Both shrink-to-fit flags.
    #[verifier::allow_in_spec]
    pub fn all_shrink_to_fit_inline() -> Self
        returns
            Self(0x30),
    {
        Self(0x30)
    }

    /// Both resize-to-fit flags.
    #[verifier::allow_in_spec]
    pub fn all_resize_to_fit() -> Self
        returns
            Self(0xc0),
    {
        Self(0xc0)
    }

    /// The bits of the set.
    pub fn bits(self) -> (r: u32)
        ensures
            r == self.0,
    {
        self.0
    }

    /// The set of the flags whose bits are set in `bits`; other bits are
    /// dropped.
    pub fn from_bits_truncate(bits: u32) -> (r: Self)
        ensures
            r.0 == ctrl_flags_all_bits() & bits,
    {
        Self(0xf7 & bits)
    }

    /// Whether the two sets share a flag.
    pub fn intersects(&self, other: Self) -> (r: bool)
        ensures
            r == (self.0 & other.0 != 0),
    {
        self.0 & other.0 != 0
    }

    /// The union of the two sets.
    pub fn union(self, other: Self) -> (r: Self)
        ensures
            r.0 == self.0 | other.0,
    {
        Self(self.0 | other.0)
    }
}

/// Truncating keeps exactly the known inputs: the result has no bit outside
/// `all()`, truncating again changes nothing, and known bits survive.
pub proof fn law_inputs_truncate(bits: u32)
    ensures
        (inputs_all_bits() & bits) & !inputs_all_bits() == 0,
        inputs_all_bits() & (inputs_all_bits() & bits) == inputs_all_bits() & bits,
        bits & !inputs_all_bits() == 0 ==> inputs_all_bits() & bits == bits,
{
    assert((0x1f_ffffu32 & bits) & !0x1f_ffffu32 == 0) by (bit_vector);
    assert(0x1f_ffffu32 & (0x1f_ffffu32 & bits) == 0x1f_ffffu32 & bits) by (bit_vector);
    assert(bits & !0x1f_ffffu32 == 0 ==> 0x1f_ffffu32 & bits == bits) by (bit_vector);
}

/// Truncating keeps exactly the known flags: the result has no bit outside
/// `all()`, truncating again changes nothing, and known bits survive.
pub proof fn law_ctrl_flags_truncate(bits: u32)
    ensures
        (ctrl_flags_all_bits() & bits) & !ctrl_flags_all_bits() == 0,
        ctrl_flags_all_bits() & (ctrl_flags_all_bits() & bits) == ctrl_flags_all_bits() & bits,
        bits & !ctrl_flags_all_bits() == 0 ==> ctrl_flags_all_bits() & bits == bits,
{
    assert((0xf7u32 & bits) & !0xf7u32 == 0) by (bit_vector);
    assert(0xf7u32 & (0xf7u32 & bits) == 0xf7u32 & bits) by (bit_vector);
    assert(bits & !0xf7u32 == 0 ==> 0xf7u32 & bits == bits) by (bit_vector);
}

/// Intersection is symmetric, nothing intersects the empty set, and a union
/// intersects a set exactly when one of its parts does.
pub proof fn law_intersects(a: u32, b: u32, c: u32)
    ensures
        (a & b != 0) == (b & a != 0),
        a & 0 == 0,
        ((a | b) & c != 0) == ((a & c != 0) || (b & c != 0)),
        a != 0 ==> a & a != 0,
{
    assert((a & b != 0) == (b & a != 0)) by (bit_vector);
    assert(a & 0 == 0) by (bit_vector);
    assert(((a | b) & c != 0) == ((a & c != 0) || (b & c != 0))) by (bit_vector);
    assert(a != 0 ==> a & a != 0) by (bit_vector);
}

/// The named unions are the unions of their parts.
pub proof fn law_named_unions()
    ensures
        CtrlFlags::all().0 == (CtrlFlags::capture_scroll().0 | CtrlFlags::capture_hover().0
            | CtrlFlags::capture_active().0 | CtrlFlags::shrink_to_fit_inline_horizontal().0
            | CtrlFlags::shrink_to_fit_inline_vertical().0 | CtrlFlags::resize_to_fit_horizontal().0
            | CtrlFlags::resize_to_fit_vertical().0),
        CtrlFlags::all_shrink_to_fit_inline().0 == (CtrlFlags::shrink_to_fit_inline_horizontal().0
            | CtrlFlags::shrink_to_fit_inline_vertical().0),
        CtrlFlags::all_resize_to_fit().0 == (CtrlFlags::resize_to_fit_horizontal().0
            | CtrlFlags::resize_to_fit_vertical().0),
        Inputs::all().0 == (Inputs::mb_left().0 | Inputs::mb_right().0 | Inputs::mb_middle().0
            | Inputs::mb_4().0 | Inputs::mb_5().0 | Inputs::mb_6().0 | Inputs::mb_7().0 | Inputs::kb_tab().0
            | Inputs::kb_left_arrow().0 | Inputs::kb_right_arrow().0 | Inputs::kb_up_arrow().0
            | Inputs::kb_down_arrow().0 | Inputs::kb_page_up().0 | Inputs::kb_page_down().0
            | Inputs::kb_home().0 | Inputs::kb_end().0 | Inputs::kb_insert().0 | Inputs::kb_delete().0
            | Inputs::kb_backspace().0 | Inputs::kb_enter().0 | Inputs::kb_escape().0),
        Inputs::all().0 == inputs_all_bits(),
        CtrlFlags::all().0 == ctrl_flags_all_bits(),
{
    assert(0xf7u32 == (0x01u32 | 0x02u32 | 0x04u32 | 0x10u32 | 0x20u32 | 0x40u32 | 0x80u32))
        by (bit_vector);
    assert(0x30u32 == (0x10u32 | 0x20u32)) by (bit_vector);
    assert(0xc0u32 == (0x40u32 | 0x80u32)) by (bit_vector);
    assert(0x1f_ffffu32 == (0x01u32 | 0x02u32 | 0x04u32 | 0x08u32 | 0x10u32 | 0x20u32 | 0x40u32
        | 0x80u32 | 0x100u32 | 0x200u32 | 0x400u32 | 0x800u32 | 0x1000u32 | 0x2000u32 | 0x4000u32
        | 0x8000u32 | 0x10000u32 | 0x20000u32 | 0x40000u32 | 0x80000u32 | 0x100000u32))
        by (bit_vector);
}

} // verus!
