//! Integer inputs: the decimal text that a user edits is read back as an
//! `i32` and kept within bounds.
use vstd::prelude::*;
use vstd::string::*;

verus! {

/// Whether `b` is an ASCII digit (bytes 48 to 57).
pub open spec fn is_digit(b: u8) -> bool {
    48 <= b <= 57
}

/// The value of a run of ASCII digits, most significant first.
pub open spec fn digits_value(d: Seq<u8>) -> int
    decreases d.len(),
{
    if d.len() == 0 {
        0
    } else {
        digits_value(d.drop_last()) * 10 + (d.last() - 48)
    }
}

/// Whether `d` is one or more ASCII digits.
pub open spec fn all_digits(d: Seq<u8>) -> bool {
    d.len() > 0 && forall|i: int| 0 <= i < d.len() ==> is_digit(#[trigger] d[i])
}

/// Whether `b` starts with a minus sign (byte 45).
pub open spec fn is_negative(b: Seq<u8>) -> bool {
    b.len() > 0 && b[0] == 45u8
}

/// `b` without its leading `+` (byte 43) or `-` (byte 45), if it has one.
pub open spec fn unsigned_part(b: Seq<u8>) -> Seq<u8> {
    if b.len() > 0 && (b[0] == 45u8 || b[0] == 43u8) {
        b.drop_first()
    } else {
        b
    }
}

/// What `i32::from_str` reads from `b`: an optional `+` or `-` followed by
/// one or more ASCII digits whose value fits in an `i32`; anything else is
/// an error.
pub open spec fn decimal_i32(b: Seq<u8>) -> Option<i32> {
    let d = unsigned_part(b);
    let v = if is_negative(b) {
        -digits_value(d)
    } else {
        digits_value(d)
    };
    if all_digits(d) && i32::MIN <= v <= i32::MAX {
        Some(v as i32)
    } else {
        None
    }
}

proof fn lemma_digits_value_nonneg(d: Seq<u8>)
    requires
        forall|i: int| 0 <= i < d.len() ==> is_digit(#[trigger] d[i]),
    ensures
        digits_value(d) >= 0,
    decreases d.len(),
{
    if d.len() > 0 {
        lemma_digits_value_nonneg(d.drop_last());
    }
}

/// Appending digits never makes the value smaller.
proof fn lemma_digits_value_grows(d: Seq<u8>, k: int)
    requires
        0 <= k <= d.len(),
        forall|i: int| 0 <= i < d.len() ==> is_digit(#[trigger] d[i]),
    ensures
        digits_value(d.take(k)) <= digits_value(d),
    decreases d.len() - k,
{
    if k < d.len() {
        lemma_digits_value_grows(d, k + 1);
        assert(d.take(k + 1).drop_last() =~= d.take(k));
        lemma_digits_value_nonneg(d.take(k));
    } else {
        assert(d.take(k) =~= d);
    }
}

/// Reads `text` as `i32::from_str` does, as `decimal_i32` says.
pub fn parse_i32(text: &str) -> (r: Option<i32>)
    ensures
        r == decimal_i32(text.spec_bytes()),
{
    let b = text.as_bytes();
    let ghost bs = text.spec_bytes();
    let ghost d = unsigned_part(bs);
    let len = b.len();
    let neg = len > 0 && b[0] == 45u8;
    let start: usize = if len > 0 && (b[0] == 45u8 || b[0] == 43u8) {
        1
    } else {
        0
    };
    assert(d =~= bs.subrange(start as int, len as int));
    if start == len {
        return None;
    }
    let limit: u64 = if neg {
        2147483648
    } else {
        2147483647
    };
    let mut acc: u64 = 0;
    let mut i: usize = start;
    let mut ok = true;
    while i < len && ok
        invariant
            start <= i <= len,
            len == bs.len(),
            b@ == bs,
            d == bs.subrange(start as int, len as int),
            forall|j: int| 0 <= j < i - start ==> is_digit(#[trigger] d[j]),
            ok ==> acc == digits_value(d.take(i - start)) && acc <= limit,
            !ok ==> decimal_i32(bs) is None,
            limit <= 2147483648,
            limit == (if is_negative(bs) {
                2147483648u64
            } else {
                2147483647u64
            }),
            d == unsigned_part(bs),
        decreases len - i + (if ok {
            1int
        } else {
            0int
        }),
    {
        let c = b[i];
        assert(c == d[i - start]);
        if c < 48 || c > 57 {
            assert(!is_digit(d[i - start]));
            ok = false;
        } else {
            assert(d.take(i - start + 1).drop_last() =~= d.take(i - start));
            acc = acc * 10 + (c - 48) as u64;
            i = i + 1;
            if acc > limit {
                proof {
                    if all_digits(d) {
                        lemma_digits_value_grows(d, i - start);
                    }
                }
                ok = false;
            }
        }
    }
    if !ok {
        return None;
    }
    assert(d.take(len - start) =~= d);
    if neg {
        Some((0i64 - acc as i64) as i32)
    } else {
        Some(acc as i32)
    }
}

/// Takes the value that an integer input's text now holds: when the text
/// reads as an `i32`, `value` becomes it, brought within `min..=max`, and
/// the result says whether `value` changed; otherwise `value` stays.
pub fn int_input_commit(text: &str, value: &mut i32, min: i32, max: i32) -> (changed: bool)
    requires
        min <= max,
    ensures
        match decimal_i32(text.spec_bytes()) {
            Some(v) => {
                let clamped = if v < min {
                    min
                } else if v > max {
                    max
                } else {
                    v
                };
                &&& *final(value) == clamped
                &&& changed == (*old(value) != clamped)
            },
            None => *final(value) == *old(value) && !changed,
        },
{
    match parse_i32(text) {
        Some(v) => {
            let clamped = if v < min {
                min
            } else if v > max {
                max
            } else {
                v
            };
            if *value != clamped {
                *value = clamped;
                true
            } else {
                false
            }
        },
        None => false,
    }
}

} // verus!
