//! Picking the autocomplete suggestions of a text input.
use vstd::prelude::*;
use vstd::string::*;

use arrayvec::ArrayVec;

use crate::string::{TextCapacityError, TextStorage};

verus! {

/// Declares `arrayvec::ArrayVec`, a vector with a capacity fixed by its type.
#[verifier::external_type_specification]
#[verifier::external_body]
#[verifier::reject_recursive_types(T)]
pub struct ExArrayVec<T, const CAP: usize>(ArrayVec<T, CAP>);

/// The items of a vector of at most twenty suggestion indices, in order.
pub uninterp spec fn suggestion_items(v: ArrayVec<usize, 20>) -> Seq<usize>;

/// Calls `ArrayVec::new`, which makes an empty vector.
#[verifier::external_body]
fn suggestions_new() -> (r: ArrayVec<usize, 20>)
    ensures
        suggestion_items(r) == Seq::<usize>::empty(),
{
    ArrayVec::new()
}

/// Calls `ArrayVec::push`, which appends an item; it panics when the vector
/// already holds twenty.
#[verifier::external_body]
fn suggestions_push(v: &mut ArrayVec<usize, 20>, x: usize)
    requires
        suggestion_items(*old(v)).len() < 20,
    ensures
        suggestion_items(*final(v)) == suggestion_items(*old(v)).push(x),
{
    v.push(x)
}

/// Calls `ArrayVec::is_full`, which tells whether the vector holds as many
/// items as its capacity, twenty.
#[verifier::external_body]
fn suggestions_is_full(v: &ArrayVec<usize, 20>) -> (r: bool)
    ensures
        r == (suggestion_items(*v).len() == 20),
{
    v.is_full()
}

/// `p` occurs in `s` at byte offset `i`.
pub open spec fn occurs_at(s: Seq<u8>, p: Seq<u8>, i: int) -> bool {
    &&& 0 <= i
    &&& i + p.len() <= s.len()
    &&& s.subrange(i, i + p.len()) == p
}

/// `p` occurs somewhere in `s`.
pub open spec fn bytes_contain(s: Seq<u8>, p: Seq<u8>) -> bool {
    exists|i: int| occurs_at(s, p, i)
}

/// Whether `pattern` occurs in `s`, as `str::contains` tells.
pub fn str_contains(s: &str, pattern: &str) -> (r: bool)
    ensures
        r == bytes_contain(s.spec_bytes(), pattern.spec_bytes()),
{
    let sb = s.as_bytes();
    let pb = pattern.as_bytes();
    let n = sb.len();
    let m = pb.len();
    if m > n {
        assert forall|i: int| !occurs_at(sb@, pb@, i) by {}
        return false;
    }
    let mut i: usize = 0;
    while i <= n - m
        invariant
            n == sb@.len(),
            m == pb@.len(),
            sb@ == s.spec_bytes(),
            pb@ == pattern.spec_bytes(),
            m <= n,
            0 <= i <= n - m + 1,
            forall|j: int| 0 <= j < i ==> !occurs_at(sb@, pb@, j),
        decreases n - m + 1 - i,
    {
        let mut k: usize = 0;
        let mut same = true;
        while k < m
            invariant
                n == sb@.len(),
                m == pb@.len(),
                i + m <= n,
                0 <= k <= m,
                same <==> forall|t: int| 0 <= t < k ==> sb@[i + t] == pb@[t],
            decreases m - k,
        {
            if sb[i + k] != pb[k] {
                same = false;
            }
            k = k + 1;
        }
        if same {
            assert(sb@.subrange(i as int, i + m) =~= pb@);
            assert(occurs_at(sb@, pb@, i as int));
            return true;
        }
        proof {
            if occurs_at(sb@, pb@, i as int) {
                assert forall|t: int| 0 <= t < m implies sb@[i + t] == pb@[t] by {
                    assert(sb@.subrange(i as int, i + m)[t] == sb@[i + t]);
                }
            }
        }
        i = i + 1;
    }
    false
}

/// The indices of the candidates below `n` that contain `text`, in order.
pub open spec fn matching_candidates(text: Seq<u8>, candidates: Seq<Seq<u8>>, n: int) -> Seq<usize>
    decreases n,
{
    if n <= 0 {
        Seq::empty()
    } else if bytes_contain(candidates[n - 1], text) {
        matching_candidates(text, candidates, n - 1).push((n - 1) as usize)
    } else {
        matching_candidates(text, candidates, n - 1)
    }
}

proof fn lemma_matching_grows(text: Seq<u8>, candidates: Seq<Seq<u8>>, a: int, b: int)
    requires
        0 <= a <= b,
    ensures
        matching_candidates(text, candidates, a).len() <= matching_candidates(text, candidates, b).len(),
        matching_candidates(text, candidates, b).subrange(0, matching_candidates(text, candidates, a).len() as int)
            == matching_candidates(text, candidates, a),
    decreases b - a,
{
    if a < b {
        lemma_matching_grows(text, candidates, a, b - 1);
        let x = matching_candidates(text, candidates, a);
        let y = matching_candidates(text, candidates, b - 1);
        let z = matching_candidates(text, candidates, b);
        assert(z.subrange(0, x.len() as int) =~= y.subrange(0, x.len() as int));
    } else {
        assert(matching_candidates(text, candidates, a).subrange(0, matching_candidates(text, candidates, a).len() as int) =~= matching_candidates(text, candidates, a));
    }
}

/// The bytes of each candidate.
pub open spec fn candidate_bytes(candidates: Seq<&str>) -> Seq<Seq<u8>> {
    candidates.map_values(|c: &str| c.spec_bytes())
}

/// The suggestions for `text`: the first twenty candidates that contain it,
/// in order, or none when `text` is empty.
pub open spec fn suggestions(text: Seq<u8>, candidates: Seq<&str>) -> Seq<usize> {
    let all = matching_candidates(text, candidate_bytes(candidates), candidates.len() as int);
    if text.len() == 0 {
        Seq::empty()
    } else if all.len() <= 20 {
        all
    } else {
        all.subrange(0, 20)
    }
}

/// Collects the autocomplete suggestions for `text`: the indices of the
/// first twenty candidates that contain it, or none when it is empty.
pub fn autocomplete_matches(text: &str, candidates: &[&str]) -> (r: ArrayVec<usize, 20>)
    ensures
        suggestion_items(r) == suggestions(text.spec_bytes(), candidates@),
{
    let mut results = suggestions_new();
    let ghost cb = candidate_bytes(candidates@);
    let ghost tb = text.spec_bytes();
    if text.as_bytes().len() > 0 {
        let mut i: usize = 0;
        while i < candidates.len()
            invariant
                0 <= i <= candidates@.len(),
                cb == candidate_bytes(candidates@),
                tb == text.spec_bytes(),
                tb.len() > 0,
                suggestion_items(results) == matching_candidates(tb, cb, i as int),
                suggestion_items(results).len() < 20,
            decreases candidates@.len() - i,
        {
            let candidate = candidates[i];
            if str_contains(candidate, text) {
                suggestions_push(&mut results, i);
            }
            assert(cb[i as int] == candidate.spec_bytes());
            i = i + 1;
            if suggestions_is_full(&results) {
                proof {
                    lemma_matching_grows(tb, cb, i as int, candidates@.len() as int);
                    let all = matching_candidates(tb, cb, candidates@.len() as int);
                    assert(all.subrange(0, 20) =~= suggestion_items(results));
                }
                return results;
            }
        }
    }
    results
}

/// Replaces the text with the chosen candidate, or leaves it empty where
/// the storage cannot hold the candidate.
pub fn autocomplete_pick<T: TextStorage>(text: &mut T, candidate: &str)
    ensures
        final(text).text_bytes() == (if old(text).holds(candidate.spec_bytes().len()) {
            candidate.spec_bytes()
        } else {
            Seq::<u8>::empty()
        }),
{
    let current = text.as_str();
    proof {
        vstd::utf8::encode_utf8_valid_utf8(current@);
        vstd::utf8::is_char_boundary_start_end_of_seq(current.spec_bytes());
    }
    text.truncate(0);
    let r: Result<(), TextCapacityError> = text.try_extend(candidate);
    assert(Seq::<u8>::empty() + candidate.spec_bytes() =~= candidate.spec_bytes());
}

/// Whether a text input's list of suggestions is open after a frame: a
/// pick from the list, or leaving the input by the keyboard, closes it;
/// otherwise an active input opens it, and an inactive one keeps it as it
/// was.
pub fn autocomplete_open_after(was_open: bool, active: bool, picked: bool, left_by_keyboard: bool) -> (r: bool)
    ensures
        r == (!(picked || left_by_keyboard) && (active || was_open)),
{
    if picked || left_by_keyboard {
        false
    } else {
        active || was_open
    }
}

} // verus!
