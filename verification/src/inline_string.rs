//! Text held inline, in `arrayvec::ArrayString`s: text storages of 64 and
//! 128 bytes, which refuse a text that does not fit and are left as they
//! were, and the 32 bytes of text typed in one frame.
use vstd::prelude::*;
use vstd::string::*;
use vstd::utf8::*;

use arrayvec::ArrayString;

use crate::string::{
    lemma_spliced_valid,
    shrink_cut_ok,
    splice_allowed,
    splice_bytes,
    spliced,
    str_from_utf8,
    TextCapacityError,
    TextStorage,
};

verus! {

broadcast use {vstd::utf8::group_utf8_lib, vstd::seq_lib::group_seq_properties};

/// Declares `arrayvec::ArrayString`, a UTF-8 string whose capacity in bytes
/// is fixed by its type.
#[verifier::external_type_specification]
#[verifier::external_body]
pub struct ExArrayString<const CAP: usize>(ArrayString<CAP>);

/// The bytes held by an inline string of 64 bytes.
pub uninterp spec fn inline_bytes(s: ArrayString<64>) -> Seq<u8>;

/// Calls `ArrayString::as_str`, which hands out the string itself: the bytes
/// it holds, never more than its capacity of 64.
#[verifier::external_body]
fn inline_as_str(s: &ArrayString<64>) -> (r: &str)
    ensures
        r.spec_bytes() == inline_bytes(*s),
        r.spec_bytes().len() <= 64,
{
    s.as_str()
}

/// Calls `ArrayString::truncate`, which keeps the first `new_len` bytes when
/// there are at least as many (it panics when `new_len` is not a character
/// boundary).
#[verifier::external_body]
fn inline_truncate(s: &mut ArrayString<64>, new_len: usize)
    requires
        is_char_boundary(inline_bytes(*old(s)), new_len as int),
    ensures
        inline_bytes(*final(s)) == inline_bytes(*old(s)).subrange(0, new_len as int),
{
    s.truncate(new_len)
}

/// Calls `ArrayString::try_push_str`, which appends `t` when it fits in the
/// room left of the 64 bytes, and else fails and leaves the string alone.
/// Returns whether it appended. A string never holds more than 64 bytes.
#[verifier::external_body]
fn inline_try_push_str(s: &mut ArrayString<64>, t: &str) -> (r: bool)
    ensures
        inline_bytes(*old(s)).len() <= 64,
        r <==> inline_bytes(*old(s)).len() + t.spec_bytes().len() <= 64,
        r ==> inline_bytes(*final(s)) == inline_bytes(*old(s)) + t.spec_bytes(),
        !r ==> inline_bytes(*final(s)) == inline_bytes(*old(s)),
{
    s.try_push_str(t).is_ok()
}

/// Calls `ArrayString::clear`, which empties the string.
#[verifier::external_body]
fn inline_clear(s: &mut ArrayString<64>)
    ensures
        inline_bytes(*final(s)) == Seq::<u8>::empty(),
{
    s.clear()
}

impl TextStorage for ArrayString<64> {
    open spec fn text_bytes(&self) -> Seq<u8> {
        inline_bytes(*self)
    }

    /// An inline string holds up to 64 bytes.
    open spec fn holds(&self, len: nat) -> bool {
        len <= 64
    }

    /// An inline string cuts a shortened text with `ArrayString::truncate`,
    /// which panics off a character boundary of what is there at that
    /// moment: the old text's bytes past the new length.
    open spec fn splice_ok(&self, index: int, delete: int, insert_len: int) -> bool {
        shrink_cut_ok(self.text_bytes(), index, delete, insert_len)
    }

    fn can_splice(&self, index: usize, delete: usize, insert_len: usize) -> (r: bool) {
        let text = inline_as_str(self);
        let len = text.as_bytes().len();
        if delete > insert_len {
            text.is_char_boundary(len - delete + insert_len)
        } else {
            true
        }
    }

    fn as_str(&self) -> (r: &str) {
        inline_as_str(self)
    }

    fn truncate(&mut self, new_len: usize) {
        inline_truncate(self, new_len)
    }

    fn try_extend(&mut self, s: &str) -> (r: Result<(), TextCapacityError>)
        ensures
            r is Ok <==> old(self).text_bytes().len() + s.spec_bytes().len() <= 64,
    {
        if inline_try_push_str(self, s) {
            Ok(())
        } else {
            Err(TextCapacityError)
        }
    }

    /// Fails exactly when the spliced text would not fit in 64 bytes.
    fn try_splice(&mut self, index: usize, delete: usize, insert: &str) -> (r: Result<
        (),
        TextCapacityError,
    >)
        ensures
            r is Ok <==> spliced(
                old(self).text_bytes(),
                index as int,
                delete as int,
                insert.spec_bytes(),
            ).len() <= 64,
    {
        let current = inline_as_str(self);
        let len = current.as_bytes().len();
        if index == len && delete == 0 {
            let r = TextStorage::try_extend(self, insert);
            assert(inline_bytes(*old(self)) + insert.spec_bytes() =~= spliced(
                inline_bytes(*old(self)),
                index as int,
                delete as int,
                insert.spec_bytes(),
            ));
            return r;
        }
        let new_len = len + insert.as_bytes().len() - delete;
        if new_len > 64 {
            return Err(TextCapacityError);
        }
        let bytes = current.as_bytes();
        let mut v: Vec<u8> = Vec::new();
        let mut k: usize = 0;
        while k < bytes.len()
            invariant
                k <= bytes@.len(),
                v@ == bytes@.subrange(0, k as int),
            decreases bytes@.len() - k,
        {
            v.push(bytes[k]);
            k = k + 1;
        }
        assert(v@ =~= bytes@);
        splice_bytes(&mut v, index, delete, insert.as_bytes());
        proof {
            lemma_spliced_valid(inline_bytes(*self), index as int, delete as int, insert.spec_bytes());
        }
        match str_from_utf8(v.as_slice()) {
            Ok(text) => {
                inline_clear(self);
                let pushed = inline_try_push_str(self, text);
                assert(pushed);
                assert(Seq::<u8>::empty() + text.spec_bytes() =~= text.spec_bytes());
                Ok(())
            },
            Err(_) => {
                proof {
                    assert(false);
                }
                Err(TextCapacityError)
            },
        }
    }
}

/// The bytes held by an inline string of 128 bytes, such as the text of a
/// number input.
pub uninterp spec fn wide_bytes(s: ArrayString<128>) -> Seq<u8>;

/// Calls `ArrayString::as_str`, which hands out the string itself: the bytes
/// it holds, never more than its capacity of 128.
#[verifier::external_body]
fn wide_as_str(s: &ArrayString<128>) -> (r: &str)
    ensures
        r.spec_bytes() == wide_bytes(*s),
        r.spec_bytes().len() <= 128,
{
    s.as_str()
}

/// Calls `ArrayString::truncate`, which keeps the first `new_len` bytes when
/// there are at least as many (it panics when `new_len` is not a character
/// boundary).
#[verifier::external_body]
fn wide_truncate(s: &mut ArrayString<128>, new_len: usize)
    requires
        is_char_boundary(wide_bytes(*old(s)), new_len as int),
    ensures
        wide_bytes(*final(s)) == wide_bytes(*old(s)).subrange(0, new_len as int),
{
    s.truncate(new_len)
}

/// Calls `ArrayString::try_push_str`, which appends `t` when it fits in the
/// room left of the 128 bytes, and else fails and leaves the string alone.
/// Returns whether it appended. A string never holds more than 128 bytes.
#[verifier::external_body]
fn wide_try_push_str(s: &mut ArrayString<128>, t: &str) -> (r: bool)
    ensures
        wide_bytes(*old(s)).len() <= 128,
        r <==> wide_bytes(*old(s)).len() + t.spec_bytes().len() <= 128,
        r ==> wide_bytes(*final(s)) == wide_bytes(*old(s)) + t.spec_bytes(),
        !r ==> wide_bytes(*final(s)) == wide_bytes(*old(s)),
{
    s.try_push_str(t).is_ok()
}

/// Calls `ArrayString::clear`, which empties the string.
#[verifier::external_body]
fn wide_clear(s: &mut ArrayString<128>)
    ensures
        wide_bytes(*final(s)) == Seq::<u8>::empty(),
{
    s.clear()
}

impl TextStorage for ArrayString<128> {
    open spec fn text_bytes(&self) -> Seq<u8> {
        wide_bytes(*self)
    }

    /// An inline string holds up to 128 bytes.
    open spec fn holds(&self, len: nat) -> bool {
        len <= 128
    }

    /// An inline string cuts a shortened text with `ArrayString::truncate`,
    /// which panics off a character boundary of what is there at that
    /// moment: the old text's bytes past the new length.
    open spec fn splice_ok(&self, index: int, delete: int, insert_len: int) -> bool {
        shrink_cut_ok(self.text_bytes(), index, delete, insert_len)
    }

    fn can_splice(&self, index: usize, delete: usize, insert_len: usize) -> (r: bool) {
        let text = wide_as_str(self);
        let len = text.as_bytes().len();
        if delete > insert_len {
            text.is_char_boundary(len - delete + insert_len)
        } else {
            true
        }
    }

    fn as_str(&self) -> (r: &str) {
        wide_as_str(self)
    }

    fn truncate(&mut self, new_len: usize) {
        wide_truncate(self, new_len)
    }

    fn try_extend(&mut self, s: &str) -> (r: Result<(), TextCapacityError>)
        ensures
            r is Ok <==> old(self).text_bytes().len() + s.spec_bytes().len() <= 128,
    {
        if wide_try_push_str(self, s) {
            Ok(())
        } else {
            Err(TextCapacityError)
        }
    }

    /// Fails exactly when the spliced text would not fit in 128 bytes.
    fn try_splice(&mut self, index: usize, delete: usize, insert: &str) -> (r: Result<
        (),
        TextCapacityError,
    >)
        ensures
            r is Ok <==> spliced(
                old(self).text_bytes(),
                index as int,
                delete as int,
                insert.spec_bytes(),
            ).len() <= 128,
    {
        let current = wide_as_str(self);
        let len = current.as_bytes().len();
        if index == len && delete == 0 {
            let r = TextStorage::try_extend(self, insert);
            assert(wide_bytes(*old(self)) + insert.spec_bytes() =~= spliced(
                wide_bytes(*old(self)),
                index as int,
                delete as int,
                insert.spec_bytes(),
            ));
            return r;
        }
        let new_len = len + insert.as_bytes().len() - delete;
        if new_len > 128 {
            return Err(TextCapacityError);
        }
        let bytes = current.as_bytes();
        let mut v: Vec<u8> = Vec::new();
        let mut k: usize = 0;
        while k < bytes.len()
            invariant
                k <= bytes@.len(),
                v@ == bytes@.subrange(0, k as int),
            decreases bytes@.len() - k,
        {
            v.push(bytes[k]);
            k = k + 1;
        }
        assert(v@ =~= bytes@);
        splice_bytes(&mut v, index, delete, insert.as_bytes());
        proof {
            lemma_spliced_valid(wide_bytes(*self), index as int, delete as int, insert.spec_bytes());
        }
        match str_from_utf8(v.as_slice()) {
            Ok(text) => {
                wide_clear(self);
                let pushed = wide_try_push_str(self, text);
                assert(pushed);
                assert(Seq::<u8>::empty() + text.spec_bytes() =~= text.spec_bytes());
                Ok(())
            },
            Err(_) => {
                proof {
                    assert(false);
                }
                Err(TextCapacityError)
            },
        }
    }
}

/// The bytes held by a string of 32 bytes, such as the text typed in one
/// frame.
pub uninterp spec fn typed_bytes(s: ArrayString<32>) -> Seq<u8>;

/// Calls `ArrayString::new`, which makes an empty string.
#[verifier::external_body]
pub(crate) fn typed_new() -> (r: ArrayString<32>)
    ensures
        typed_bytes(r) == Seq::<u8>::empty(),
{
    ArrayString::new()
}

/// Calls `ArrayString::try_push`, which appends the UTF-8 encoding of `c`
/// when it fits in the room left of the 32 bytes, and else fails and leaves
/// the string alone. Returns whether it appended. A string never holds more
/// than 32 bytes.
#[verifier::external_body]
pub(crate) fn typed_try_push(s: &mut ArrayString<32>, c: char) -> (r: bool)
    ensures
        typed_bytes(*old(s)).len() <= 32,
        r <==> typed_bytes(*old(s)).len() + encode_utf8(seq![c]).len() <= 32,
        r ==> typed_bytes(*final(s)) == typed_bytes(*old(s)) + encode_utf8(seq![c]),
        !r ==> typed_bytes(*final(s)) == typed_bytes(*old(s)),
{
    s.try_push(c).is_ok()
}

/// Calls `ArrayString::as_str`, which hands out the string itself.
#[verifier::external_body]
pub(crate) fn typed_as_str(s: &ArrayString<32>) -> (r: &str)
    ensures
        r.spec_bytes() == typed_bytes(*s),
{
    s.as_str()
}

/// Calls `ArrayString::clear`, which empties the string.
#[verifier::external_body]
pub(crate) fn typed_clear(s: &mut ArrayString<32>)
    ensures
        typed_bytes(*final(s)) == Seq::<u8>::empty(),
{
    s.clear()
}

} // verus!
