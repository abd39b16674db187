//! Where one sequence of characters stands inside another, and how a string
//! slice is cut where its characters are.

use vstd::prelude::*;
use vstd::string::StringSliceAdditionalSpecFns;
use vstd::utf8::{
    encode_utf8, encode_utf8_decode_utf8, encode_utf8_first_scalar, encode_utf8_valid_utf8,
    is_char_boundary, pop_first_scalar,
};

verus! {

/// `pat` stands in `s` at index `i`.
pub open spec fn occurs_at(s: Seq<char>, pat: Seq<char>, i: int) -> bool {
    0 <= i && i + pat.len() <= s.len() && s.subrange(i, i + pat.len()) == pat
}

/// `pat` stands somewhere in `s`.
pub open spec fn occurs(s: Seq<char>, pat: Seq<char>) -> bool {
    exists|i: int| occurs_at(s, pat, i)
}

/// `pat` stands in `s` at index `i` and nowhere before it.
pub open spec fn first_at(s: Seq<char>, pat: Seq<char>, i: int) -> bool {
    occurs_at(s, pat, i) && forall|j: int| 0 <= j < i ==> !occurs_at(s, pat, j)
}

/// The index of the first place where `pat` stands in `s`, if there is one.
pub open spec fn find(s: Seq<char>, pat: Seq<char>) -> Option<int> {
    if occurs(s, pat) {
        Some(choose|i: int| first_at(s, pat, i))
    } else {
        None
    }
}

/// Among the places where `pat` stands in `s`, one comes first.
proof fn lemma_first_exists(s: Seq<char>, pat: Seq<char>, k: int)
    requires
        occurs_at(s, pat, k),
    ensures
        exists|i: int| 0 <= i <= k && first_at(s, pat, i),
    decreases k,
{
    if exists|j: int| 0 <= j < k && occurs_at(s, pat, j) {
        let j = choose|j: int| 0 <= j < k && occurs_at(s, pat, j);
        lemma_first_exists(s, pat, j);
    } else {
        assert(first_at(s, pat, k));
    }
}

/// `find` gives the one index that `first_at` holds of, and `None` exactly
/// where `pat` stands nowhere in `s`.
pub proof fn lemma_find(s: Seq<char>, pat: Seq<char>)
    ensures
        match find(s, pat) {
            Some(i) => first_at(s, pat, i),
            None => forall|j: int| !occurs_at(s, pat, j),
        },
        forall|i: int| first_at(s, pat, i) ==> find(s, pat) == Some(i),
{
    if occurs(s, pat) {
        let k = choose|k: int| occurs_at(s, pat, k);
        lemma_first_exists(s, pat, k);
        let f = choose|i: int| first_at(s, pat, i);
        assert forall|i: int| first_at(s, pat, i) implies i == f by {
            assert(i < f ==> occurs_at(s, pat, i));
            assert(f < i ==> occurs_at(s, pat, f));
        }
    }
}

/// What stands in a tail of `s` stands in `s`, further on by what was skipped.
pub proof fn lemma_occurs_in_tail(s: Seq<char>, pat: Seq<char>, k: int, i: int)
    requires
        0 <= k <= s.len(),
    ensures
        occurs_at(s.skip(k), pat, i) <==> (0 <= i && occurs_at(s, pat, k + i)),
{
    if 0 <= i && k + i + pat.len() <= s.len() {
        assert(s.skip(k).subrange(i, i + pat.len()) =~= s.subrange(k + i, k + i + pat.len()));
    }
}

/// The bytes of two texts in a row are the bytes of the first and then those
/// of the second.
proof fn lemma_bytes_of_concat(a: Seq<char>, b: Seq<char>)
    ensures
        encode_utf8(a + b) == encode_utf8(a) + encode_utf8(b),
    decreases a.len(),
{
    if a.len() == 0 {
        assert(a + b == b);
    } else {
        assert((a + b).drop_first() == a.drop_first() + b);
        lemma_bytes_of_concat(a.drop_first(), b);
    }
}

/// In the bytes of two texts in a row, a character starts where the bytes of
/// the first text end.
proof fn lemma_boundary_of_concat(a: Seq<char>, b: Seq<char>)
    ensures
        is_char_boundary(encode_utf8(a + b), encode_utf8(a).len() as int),
    decreases a.len(),
{
    let bytes = encode_utf8(a + b);
    encode_utf8_valid_utf8(a + b);
    lemma_bytes_of_concat(a, b);
    if a.len() > 0 {
        encode_utf8_first_scalar(a + b);
        assert((a + b).drop_first() == a.drop_first() + b);
        assert(pop_first_scalar(bytes) == encode_utf8(a.drop_first() + b));
        lemma_boundary_of_concat(a.drop_first(), b);
    }
}

/// Texts with the same bytes are the same text.
proof fn lemma_bytes_tell_texts_apart(a: Seq<char>, b: Seq<char>)
    requires
        encode_utf8(a) == encode_utf8(b),
    ensures
        a == b,
{
    encode_utf8_decode_utf8(a);
    encode_utf8_decode_utf8(b);
}

/// The part of `whole` that stands before `rest`, where `whole` ends with
/// `rest`.
pub(crate) fn before<'a>(whole: &'a str, rest: &str) -> (r: &'a str)
    requires
        rest@.len() <= whole@.len(),
        whole@.skip(whole@.len() - rest@.len()) == rest@,
    ensures
        r@ == whole@.take(whole@.len() - rest@.len()),
{
    let ghost front = whole@.take(whole@.len() - rest@.len());
    proof {
        assert(whole@ == front + rest@);
        lemma_bytes_of_concat(front, rest@);
        lemma_boundary_of_concat(front, rest@);
    }
    let all: usize = whole.as_bytes().len();
    let left: usize = rest.as_bytes().len();
    let (head, _) = whole.split_at(all - left);
    proof {
        assert(head.spec_bytes() == encode_utf8(front));
        lemma_bytes_tell_texts_apart(head@, front);
    }
    head
}

} // verus!
