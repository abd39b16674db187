//! White space at the two ends of a text.

use vstd::prelude::*;
use vstd::string::StrSliceExecFns;

verus! {

/// What `char::is_whitespace` returns for `c`: whether `c` is white space.
pub uninterp spec fn white_space(c: char) -> bool;

/// `char::is_whitespace`: its result is given the name [`white_space`], and
/// nothing more is said of it.
pub assume_specification[ char::is_whitespace ](c: char) -> (b: bool)
    ensures
        b == white_space(c),
;

/// `s` without the white space that it starts with.
pub open spec fn trimmed_start(s: Seq<char>) -> Seq<char>
    decreases s.len(),
{
    if s.len() > 0 && white_space(s.first()) {
        trimmed_start(s.drop_first())
    } else {
        s
    }
}

/// `s` without the white space that it ends with.
pub open spec fn trimmed_end(s: Seq<char>) -> Seq<char>
    decreases s.len(),
{
    if s.len() > 0 && white_space(s.last()) {
        trimmed_end(s.drop_last())
    } else {
        s
    }
}

/// `s` without the white space at its two ends.
pub open spec fn trimmed(s: Seq<char>) -> Seq<char> {
    trimmed_end(trimmed_start(s))
}

/// What is left of `s` between `from` and `to` is `s` trimmed, where only white
/// space stands outside the two and none stands just inside them.
proof fn lemma_trimmed(s: Seq<char>, from: int, to: int)
    requires
        0 <= from <= to <= s.len(),
        forall|i: int| 0 <= i < from ==> white_space(s[i]),
        forall|i: int| to <= i < s.len() ==> white_space(s[i]),
        from < s.len() ==> !white_space(s[from]),
        from < to ==> !white_space(s[to - 1]),
    ensures
        trimmed(s) == s.subrange(from, to),
{
    lemma_trimmed_start(s, from);
    lemma_trimmed_end(s.skip(from), to - from);
}

proof fn lemma_trimmed_start(s: Seq<char>, from: int)
    requires
        0 <= from <= s.len(),
        forall|i: int| 0 <= i < from ==> white_space(s[i]),
        from < s.len() ==> !white_space(s[from]),
    ensures
        trimmed_start(s) == s.skip(from),
    decreases from,
{
    if from > 0 {
        lemma_trimmed_start(s.drop_first(), from - 1);
        assert(s.drop_first().skip(from - 1) == s.skip(from));
    }
}

proof fn lemma_trimmed_end(s: Seq<char>, to: int)
    requires
        0 <= to <= s.len(),
        forall|i: int| to <= i < s.len() ==> white_space(s[i]),
        0 < to ==> !white_space(s[to - 1]),
    ensures
        trimmed_end(s) == s.take(to),
    decreases s.len() - to,
{
    if to < s.len() {
        lemma_trimmed_end(s.drop_last(), to);
        assert(s.drop_last().take(to) == s.take(to));
    }
}

/// The part of `s` that is left when the white space at its two ends is taken
/// away.
pub fn trim<'a>(s: &'a str) -> (r: &'a str)
    ensures
        r@ == trimmed(s@),
{
    broadcast use vstd::string::group_string_axioms;

    let len: usize = s.unicode_len();
    let mut from: usize = 0;
    let mut to: usize = 0;
    let mut n: usize = 0;
    for c in it: s.chars()
        invariant
            it.seq() == s@,
            len == s@.len(),
            n == it.index(),
            from <= to <= n <= len,
            from < n || to == n,
            forall|i: int| 0 <= i < from ==> white_space(s@[i]),
            forall|i: int| to <= i < n ==> white_space(s@[i]),
            from < n ==> !white_space(s@[from as int]),
            from < to ==> !white_space(s@[to - 1]),
    {
        if !c.is_whitespace() {
            to = n + 1;
        } else if from == n {
            from = n + 1;
            to = n + 1;
        }
        n = n + 1;
    }
    proof {
        lemma_trimmed(s@, from as int, to as int);
    }
    s.substring_char(from, to)
}

} // verus!
