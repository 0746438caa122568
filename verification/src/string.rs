//! Text storage: UTF-8 strings that can be truncated, extended and spliced
//! in place, addressed by byte offsets that fall on character boundaries.
use vstd::prelude::*;
use vstd::utf8::*;
use vstd::string::*;

verus! {

broadcast use {vstd::utf8::group_utf8_lib, vstd::seq_lib::group_seq_properties};

/// Declares `core::str::Utf8Error`, the error of `core::str::from_utf8`.
#[verifier::external_type_specification]
#[verifier::external_body]
pub struct ExUtf8Error(core::str::Utf8Error);

/// Returned when a text storage cannot hold the requested text.
#[derive(Debug)]
pub struct TextCapacityError;

/// The error that `core::str::from_utf8` returns for the bytes `bytes`.
pub uninterp spec fn utf8_error(bytes: Seq<u8>) -> core::str::Utf8Error;

/// Calls `core::str::from_utf8`. Its documentation says that it returns `Ok`
/// exactly when the bytes are valid UTF-8, and then a `str` made of those
/// very bytes; its error is computed from the bytes alone.
#[verifier::external_body]
pub(crate) fn str_from_utf8(bytes: &[u8]) -> (r: Result<&str, core::str::Utf8Error>)
    ensures
        r is Ok <==> valid_utf8(bytes@),
        r matches Ok(s) ==> s.spec_bytes() == bytes@,
        r matches Err(e) ==> e == utf8_error(bytes@),
{
    core::str::from_utf8(bytes)
}

/// The bytes of `old` with `delete` bytes at `index` replaced by `insert`.
pub open spec fn spliced(old: Seq<u8>, index: int, delete: int, insert: Seq<u8>) -> Seq<u8> {
    old.subrange(0, index) + insert + old.subrange(index + delete, old.len() as int)
}

/// What a text storage whose bytes are `old` may be spliced with: both ends
/// of the replaced range lie on character boundaries, and the result fits in
/// memory.
pub open spec fn splice_allowed(old: Seq<u8>, index: int, delete: int, insert_len: int) -> bool {
    &&& is_char_boundary(old, index)
    &&& is_char_boundary(old, index + delete)
    &&& old.len() + insert_len <= usize::MAX
}

/// Whether a storage that shortens a spliced text by cutting it at its new
/// length can make that cut: where `delete` bytes at `index` give way to
/// fewer, the old text has a character boundary at the new length.
pub open spec fn shrink_cut_ok(old: Seq<u8>, index: int, delete: int, insert_len: int) -> bool {
    delete > insert_len ==> is_char_boundary(old, old.len() - delete + insert_len)
}

/// Splicing valid UTF-8 at character boundaries with valid UTF-8 keeps the
/// text valid UTF-8.
pub proof fn lemma_spliced_valid(old: Seq<u8>, index: int, delete: int, insert: Seq<u8>)
    requires
        valid_utf8(old),
        valid_utf8(insert),
        is_char_boundary(old, index),
        is_char_boundary(old, index + delete),
    ensures
        valid_utf8(spliced(old, index, delete, insert)),
{
    valid_utf8_split(old, index);
    valid_utf8_split(old, index + delete);
    let a = old.subrange(0, index);
    let c = old.subrange(index + delete, old.len() as int);
    valid_utf8_concat(a, insert);
    valid_utf8_concat(a + insert, c);
}

/// Moves `old[src..end]` to start at `dst`, as `slice::copy_within` does:
/// the bytes outside the destination range are kept.
fn copy_within(v: &mut Vec<u8>, src: usize, end: usize, dst: usize)
    requires
        src <= end <= old(v).len(),
        dst + (end - src) <= old(v).len(),
    ensures
        final(v)@.len() == old(v)@.len(),
        final(v)@ == old(v)@.subrange(0, dst as int) + old(v)@.subrange(src as int, end as int)
            + old(v)@.subrange(dst + (end - src), old(v)@.len() as int),
{
    let count = end - src;
    let ghost o = v@;
    assert(o.len() == v.len());
    if dst <= src {
        let mut k: usize = 0;
        while k < count
            invariant
                count == end - src,
                src <= end <= o.len(),
                dst <= src,
                dst + count <= o.len(),
                o.len() <= usize::MAX,
                v@.len() == o.len(),
                0 <= k <= count,
                forall|i: int| 0 <= i < dst ==> v@[i] == o[i],
                forall|i: int| dst <= i < dst + k ==> v@[i] == o[src + (i - dst)],
                forall|i: int| dst + k <= i < o.len() ==> v@[i] == o[i],
            decreases count - k,
        {
            let b = v[src + k];
            v.set(dst + k, b);
            k = k + 1;
        }
    } else {
        let mut k: usize = count;
        while k > 0
            invariant
                count == end - src,
                src <= end <= o.len(),
                dst > src,
                dst + count <= o.len(),
                o.len() <= usize::MAX,
                v@.len() == o.len(),
                0 <= k <= count,
                forall|i: int| 0 <= i < dst + k ==> v@[i] == o[i],
                forall|i: int| dst + k <= i < dst + count ==> v@[i] == o[src + (i - dst)],
                forall|i: int| dst + count <= i < o.len() ==> v@[i] == o[i],
            decreases k,
        {
            k = k - 1;
            let b = v[src + k];
            v.set(dst + k, b);
        }
    }
    assert(v@ =~= o.subrange(0, dst as int) + o.subrange(src as int, end as int) + o.subrange(
        dst + count,
        o.len() as int,
    ));
}

/// Replaces `delete` bytes at `index` of `v` with `insert`, moving the tail
/// of `v` by the difference of the two lengths.
pub(crate) fn splice_bytes(v: &mut Vec<u8>, index: usize, delete: usize, insert: &[u8])
    requires
        index + delete <= old(v)@.len(),
        index < old(v)@.len(),
        old(v)@.len() + insert@.len() <= usize::MAX,
    ensures
        final(v)@ == spliced(old(v)@, index as int, delete as int, insert@),
{
    let ghost o = v@;
    let len = v.len();
    let insert_byte_count = insert.len();
    let delete_byte_count = delete;
    let new_len = len + insert_byte_count - delete_byte_count;

    if insert_byte_count > delete_byte_count {
        let dst = index + insert_byte_count - delete_byte_count;
        v.resize(new_len, 0);
        assert(v@.subrange(0, len as int) =~= o);
        copy_within(v, index, len, dst);
    }
    let ghost mid = v@;
    proof {
        let t = o.subrange(index + delete, o.len() as int);
        assert(mid.len() == if insert_byte_count > delete_byte_count { new_len } else { len });
        assert(forall|i: int| 0 <= i < index ==> mid[i] == o[i]);
        if insert_byte_count > delete_byte_count {
            assert(forall|j: int|
                0 <= j < t.len() ==> mid[index + insert_byte_count + j] == #[trigger] t[j]);
        }
    }
    let mut k: usize = 0;
    while k < insert_byte_count
        invariant
            insert_byte_count == insert@.len(),
            index + insert_byte_count <= mid.len(),
            mid.len() <= usize::MAX,
            v@.len() == mid.len(),
            0 <= k <= insert_byte_count,
            forall|i: int| 0 <= i < index ==> v@[i] == mid[i],
            forall|i: int| index <= i < index + k ==> v@[i] == insert@[i - index],
            forall|i: int| index + k <= i < mid.len() ==> v@[i] == mid[i],
        decreases insert_byte_count - k,
    {
        v.set(index + k, insert[k]);
        k = k + 1;
    }
    let ghost written = v@;
    if delete_byte_count > insert_byte_count {
        let src = index + delete_byte_count;
        let dst = index + insert_byte_count;
        copy_within(v, src, len, dst);
        v.truncate(new_len);
    }
    proof {
        let r = spliced(o, index as int, delete as int, insert@);
        assert(r.len() == v@.len());
        assert forall|i: int| 0 <= i < r.len() implies v@[i] == r[i] by {
            if i < index {
            } else if i < index + insert_byte_count {
            } else {
                let j = i - index - insert_byte_count;
                assert(r[i] == o[index + delete + j]);
            }
        }
        assert(v@ =~= r);
    }
}

/// A UTF-8 string in a growable byte vector.
pub struct VecString {
    bytes: Vec<u8>,
}

impl View for VecString {
    type V = Seq<u8>;

    /// The bytes of the string.
    closed spec fn view(&self) -> Seq<u8> {
        self.bytes@
    }
}

impl VecString {
    #[verifier::type_invariant]
    spec fn inv(self) -> bool {
        valid_utf8(self.bytes@)
    }

    /// Creates an empty string.
    pub fn new_in() -> (r: Self)
        ensures
            r@ == Seq::<u8>::empty(),
    {
        VecString { bytes: Vec::new() }
    }

    /// Creates a string holding a copy of `str`.
    pub fn from_str_in(str: &str) -> (r: Self)
        ensures
            r@ == str.spec_bytes(),
    {
        let src = str.as_bytes();
        let mut data: Vec<u8> = Vec::with_capacity(str.len());
        let mut k: usize = 0;
        while k < src.len()
            invariant
                0 <= k <= src@.len(),
                data@ == src@.subrange(0, k as int),
            decreases src@.len() - k,
        {
            data.push(src[k]);
            k = k + 1;
        }
        proof {
            assert(src@.subrange(0, src@.len() as int) =~= src@);
            encode_utf8_valid_utf8(str@);
        }
        VecString { bytes: data }
    }

    /// Creates a string from `bytes`, or fails with the error of
    /// `core::str::from_utf8` when they are not valid UTF-8.
    pub fn from_utf8_in(bytes: &[u8]) -> (r: Result<Self, core::str::Utf8Error>)
        ensures
            r is Ok <==> valid_utf8(bytes@),
            r matches Ok(s) ==> s@ == bytes@,
            r matches Err(e) ==> e == utf8_error(bytes@),
    {
        match str_from_utf8(bytes) {
            Ok(s) => Ok(Self::from_str_in(s)),
            Err(e) => Err(e),
        }
    }

    /// Turns `vec` into a string, or fails with the error of
    /// `core::str::from_utf8` when its bytes are not valid UTF-8.
    pub fn from_utf8_vec(vec: Vec<u8>) -> (r: Result<Self, core::str::Utf8Error>)
        ensures
            r is Ok <==> valid_utf8(vec@),
            r matches Ok(s) ==> s@ == vec@,
            r matches Err(e) ==> e == utf8_error(vec@),
    {
        match str_from_utf8(vec.as_slice()) {
            Ok(_) => Ok(VecString { bytes: vec }),
            Err(e) => Err(e),
        }
    }

    /// The length of the string in bytes.
    pub fn len(&self) -> (r: usize)
        ensures
            r == self@.len(),
    {
        self.bytes.len()
    }

    /// The string as a `str`.
    pub fn as_str(&self) -> (r: &str)
        ensures
            r.spec_bytes() == self@,
    {
        proof {
            use_type_invariant(self);
        }
        match str_from_utf8(self.bytes.as_slice()) {
            Ok(s) => s,
            Err(_) => {
                proof {
                    assert(false);
                }
                ""
            },
        }
    }

    /// Shortens the string to its first `new_len` bytes, which must end on a
    /// character boundary.
    pub fn truncate(&mut self, new_len: usize)
        requires
            is_char_boundary(old(self)@, new_len as int),
        ensures
            final(self)@ == old(self)@.subrange(0, new_len as int),
    {
        proof {
            use_type_invariant(&*self);
            valid_utf8_split(self.bytes@, new_len as int);
        }
        let mut v: Vec<u8> = Vec::new();
        core::mem::swap(&mut v, &mut self.bytes);
        v.truncate(new_len);
        self.bytes = v;
    }

    /// Appends `s`. A vector grows as needed, so this always succeeds.
    pub fn try_extend(&mut self, s: &str) -> (r: Result<(), TextCapacityError>)
        ensures
            r is Ok,
            final(self)@ == old(self)@ + s.spec_bytes(),
    {
        proof {
            use_type_invariant(&*self);
            encode_utf8_valid_utf8(s@);
            valid_utf8_concat(self.bytes@, s.spec_bytes());
        }
        let src = s.as_bytes();
        let mut v: Vec<u8> = Vec::new();
        core::mem::swap(&mut v, &mut self.bytes);
        let ghost o = v@;
        let mut k: usize = 0;
        while k < src.len()
            invariant
                0 <= k <= src@.len(),
                v@ == o + src@.subrange(0, k as int),
            decreases src@.len() - k,
        {
            v.push(src[k]);
            k = k + 1;
        }
        assert(src@.subrange(0, src@.len() as int) =~= src@);
        self.bytes = v;
        Ok(())
    }

    /// Replaces `delete` bytes at byte offset `index` with `insert`. Both ends
    /// of the replaced range must lie on character boundaries. A vector grows
    /// as needed, so this always succeeds.
    pub fn try_splice(&mut self, index: usize, delete: usize, insert: &str) -> (r: Result<
        (),
        TextCapacityError,
    >)
        requires
            splice_allowed(old(self)@, index as int, delete as int, insert.spec_bytes().len() as int),
        ensures
            r is Ok,
            final(self)@ == spliced(old(self)@, index as int, delete as int, insert.spec_bytes()),
    {
        proof {
            use_type_invariant(&*self);
        }
        let len = self.bytes.len();
        if index == len && delete == 0 {
            let r = self.try_extend(insert);
            assert(self@ =~= spliced(old(self)@, index as int, delete as int, insert.spec_bytes()));
            return r;
        }
        proof {
            encode_utf8_valid_utf8(insert@);
            lemma_spliced_valid(self.bytes@, index as int, delete as int, insert.spec_bytes());
        }
        let mut v: Vec<u8> = Vec::new();
        core::mem::swap(&mut v, &mut self.bytes);
        splice_bytes(&mut v, index, delete, insert.as_bytes());
        self.bytes = v;
        Ok(())
    }

    /// Empties the string.
    pub fn clear(&mut self)
        ensures
            final(self)@ == Seq::<u8>::empty(),
    {
        self.bytes = Vec::new();
    }
}

/// A text that widgets edit in place. Offsets are in bytes and must lie on
/// character boundaries. A storage with a bounded capacity refuses to grow
/// past what it `holds`, and then stays as it was.
pub trait TextStorage {
    /// The bytes of the text.
    spec fn text_bytes(&self) -> Seq<u8>;

    /// Whether the storage can hold a text of `len` bytes.
    spec fn holds(&self, len: nat) -> bool;

    /// Whether the storage can replace `delete` bytes at `index` with
    /// `insert_len` bytes without panicking.
    spec fn splice_ok(&self, index: int, delete: int, insert_len: int) -> bool;

    /// Tells whether the storage can make a splice, as `splice_ok` says.
    fn can_splice(&self, index: usize, delete: usize, insert_len: usize) -> (r: bool)
        requires
            splice_allowed(self.text_bytes(), index as int, delete as int, insert_len as int),
        ensures
            r == self.splice_ok(index as int, delete as int, insert_len as int),
    ;

    /// The text as a `str`.
    fn as_str(&self) -> (r: &str)
        ensures
            r.spec_bytes() == self.text_bytes(),
    ;

    /// Shortens the text to its first `new_len` bytes.
    fn truncate(&mut self, new_len: usize)
        requires
            is_char_boundary(old(self).text_bytes(), new_len as int),
        ensures
            final(self).text_bytes() == old(self).text_bytes().subrange(0, new_len as int),
            forall|n: nat| #[trigger] final(self).holds(n) == old(self).holds(n),
    ;

    /// Appends `s`, or, when the storage cannot hold the longer text, fails
    /// and leaves the text as it was. Appending nothing never fails.
    fn try_extend(&mut self, s: &str) -> (r: Result<(), TextCapacityError>)
        ensures
            r is Ok <==> old(self).holds(old(self).text_bytes().len() + s.spec_bytes().len()),
            r is Ok ==> final(self).text_bytes() == old(self).text_bytes() + s.spec_bytes(),
            r is Err ==> final(self).text_bytes() == old(self).text_bytes(),
            r is Err ==> s.spec_bytes().len() > 0,
    ;

    /// Replaces `delete` bytes at `index` with `insert`, or, when the storage
    /// cannot hold the result, fails and leaves the text as it was. A splice
    /// that does not lengthen the text never fails.
    fn try_splice(&mut self, index: usize, delete: usize, insert: &str) -> (r: Result<
        (),
        TextCapacityError,
    >)
        requires
            splice_allowed(
                old(self).text_bytes(),
                index as int,
                delete as int,
                insert.spec_bytes().len() as int,
            ),
            old(self).splice_ok(index as int, delete as int, insert.spec_bytes().len() as int),
        ensures
            r is Ok <==> old(self).holds(
                spliced(old(self).text_bytes(), index as int, delete as int, insert.spec_bytes()).len(),
            ),
            r is Ok ==> final(self).text_bytes() == spliced(
                old(self).text_bytes(),
                index as int,
                delete as int,
                insert.spec_bytes(),
            ),
            r is Err ==> final(self).text_bytes() == old(self).text_bytes(),
            r is Err ==> insert.spec_bytes().len() > delete,
    ;
}

impl TextStorage for VecString {
    open spec fn text_bytes(&self) -> Seq<u8> {
        self@
    }

    /// A growable string holds any text.
    open spec fn holds(&self, len: nat) -> bool {
        true
    }

    /// A `VecString` moves the bytes and cuts its vector, which never panics.
    open spec fn splice_ok(&self, index: int, delete: int, insert_len: int) -> bool {
        true
    }

    fn can_splice(&self, index: usize, delete: usize, insert_len: usize) -> (r: bool) {
        true
    }

    fn as_str(&self) -> (r: &str) {
        VecString::as_str(self)
    }

    fn truncate(&mut self, new_len: usize) {
        VecString::truncate(self, new_len)
    }

    fn try_extend(&mut self, s: &str) -> (r: Result<(), TextCapacityError>)
        ensures
            r is Ok,
    {
        VecString::try_extend(self, s)
    }

    fn try_splice(&mut self, index: usize, delete: usize, insert: &str) -> (r: Result<
        (),
        TextCapacityError,
    >)
        ensures
            r is Ok,
    {
        VecString::try_splice(self, index, delete, insert)
    }
}

/// Declares `alloc::string::FromUtf8Error`, the error of `String::from_utf8`.
#[verifier::external_type_specification]
#[verifier::external_body]
pub struct ExFromUtf8Error(std::string::FromUtf8Error);

/// Calls `String::into_bytes`, which hands out the UTF-8 bytes of the string.
#[verifier::external_body]
fn string_into_bytes(s: String) -> (r: Vec<u8>)
    ensures
        r@ == encode_utf8(s@),
{
    s.into_bytes()
}

/// Calls `String::from_utf8`. Its documentation says that it returns `Ok`
/// exactly when the bytes are valid UTF-8, and then a string made of those
/// very bytes.
#[verifier::external_body]
fn string_from_utf8(v: Vec<u8>) -> (r: Result<String, std::string::FromUtf8Error>)
    ensures
        r is Ok <==> valid_utf8(v@),
        r matches Ok(s) ==> encode_utf8(s@) == v@,
{
    String::from_utf8(v)
}

/// Turns bytes known to be valid UTF-8 back into a string.
fn string_from_valid(v: Vec<u8>) -> (r: String)
    requires
        valid_utf8(v@),
    ensures
        encode_utf8(r@) == v@,
{
    match string_from_utf8(v) {
        Ok(s) => s,
        Err(_) => {
            proof {
                assert(false);
            }
            String::new()
        },
    }
}

impl TextStorage for String {
    open spec fn text_bytes(&self) -> Seq<u8> {
        encode_utf8(self@)
    }

    /// A growable string holds any text.
    open spec fn holds(&self, len: nat) -> bool {
        true
    }

    /// A `String` cuts a shortened text with `String::truncate`, which
    /// panics off a character boundary of what is there at that moment: the
    /// old text's bytes past the new length.
    open spec fn splice_ok(&self, index: int, delete: int, insert_len: int) -> bool {
        shrink_cut_ok(self.text_bytes(), index, delete, insert_len)
    }

    fn can_splice(&self, index: usize, delete: usize, insert_len: usize) -> (r: bool) {
        let text = String::as_str(self);
        let len = text.as_bytes().len();
        if delete > insert_len {
            text.is_char_boundary(len - delete + insert_len)
        } else {
            true
        }
    }

    fn as_str(&self) -> (r: &str) {
        String::as_str(self)
    }

    fn truncate(&mut self, new_len: usize) {
        proof {
            encode_utf8_valid_utf8(self@);
            valid_utf8_split(encode_utf8(self@), new_len as int);
        }
        let mut owned = String::new();
        core::mem::swap(&mut owned, self);
        let mut v = string_into_bytes(owned);
        v.truncate(new_len);
        *self = string_from_valid(v);
    }

    fn try_extend(&mut self, s: &str) -> (r: Result<(), TextCapacityError>)
        ensures
            r is Ok,
    {
        proof {
            encode_utf8_valid_utf8(self@);
            encode_utf8_valid_utf8(s@);
            valid_utf8_concat(encode_utf8(self@), s.spec_bytes());
        }
        let mut owned = String::new();
        core::mem::swap(&mut owned, self);
        let mut v = string_into_bytes(owned);
        let ghost o = v@;
        let src = s.as_bytes();
        let mut k: usize = 0;
        while k < src.len()
            invariant
                0 <= k <= src@.len(),
                v@ == o + src@.subrange(0, k as int),
            decreases src@.len() - k,
        {
            v.push(src[k]);
            k = k + 1;
        }
        assert(src@.subrange(0, src@.len() as int) =~= src@);
        *self = string_from_valid(v);
        Ok(())
    }

    fn try_splice(&mut self, index: usize, delete: usize, insert: &str) -> (r: Result<
        (),
        TextCapacityError,
    >)
        ensures
            r is Ok,
    {
        proof {
            encode_utf8_valid_utf8(self@);
        }
        let len = self.as_str().len();
        if index == len && delete == 0 {
            let r = TextStorage::try_extend(self, insert);
            assert(self.text_bytes() =~= spliced(
                old(self).text_bytes(),
                index as int,
                delete as int,
                insert.spec_bytes(),
            ));
            return r;
        }
        proof {
            encode_utf8_valid_utf8(insert@);
            lemma_spliced_valid(encode_utf8(self@), index as int, delete as int, insert.spec_bytes());
        }
        let mut owned = String::new();
        core::mem::swap(&mut owned, self);
        let mut v = string_into_bytes(owned);
        splice_bytes(&mut v, index, delete, insert.as_bytes());
        *self = string_from_valid(v);
        Ok(())
    }
}

} // verus!
