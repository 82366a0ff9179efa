//! Verified text manipulation: pattern removal, whitespace trimming, and the
//! conversions between byte sequences, character vectors and strings that the
//! certificate normalization and the response decoding build on.
use vstd::prelude::*;
use vstd::string::StrSliceExecFns;

use crate::trusted::push_char;

verus! {

/// Each byte read as the character with the same code point.
pub open spec fn bytes_as_chars(s: Seq<u8>) -> Seq<char> {
    Seq::new(s.len(), |i: int| s[i] as char)
}

/// An ASCII whitespace character, the kind PEM framing can leave around a
/// base64 body.
pub open spec fn is_ascii_ws(c: char) -> bool {
    c == ' ' || c == '\t' || c == '\n' || c == '\r'
}

/// `s` with every non-overlapping occurrence of `p` removed, scanning from
/// the left.
pub open spec fn spec_remove_all(s: Seq<char>, p: Seq<char>) -> Seq<char>
    decreases s.len(),
{
    if p.len() == 0 || s.len() < p.len() {
        s
    } else if s.take(p.len() as int) == p {
        spec_remove_all(s.skip(p.len() as int), p)
    } else {
        seq![s[0]] + spec_remove_all(s.skip(1), p)
    }
}

/// `s` without its leading ASCII whitespace.
pub open spec fn spec_trim_start(s: Seq<char>) -> Seq<char>
    decreases s.len(),
{
    if s.len() > 0 && is_ascii_ws(s[0]) {
        spec_trim_start(s.skip(1))
    } else {
        s
    }
}

/// `s` without its trailing ASCII whitespace.
pub open spec fn spec_trim_end(s: Seq<char>) -> Seq<char>
    decreases s.len(),
{
    if s.len() > 0 && is_ascii_ws(s[s.len() - 1]) {
        spec_trim_end(s.drop_last())
    } else {
        s
    }
}

/// `s` without leading and trailing ASCII whitespace.
pub open spec fn spec_trim(s: Seq<char>) -> Seq<char> {
    spec_trim_end(spec_trim_start(s))
}

/// The bytes of `v`, read as characters.
pub(crate) fn bytes_to_chars(v: &Vec<u8>) -> (r: Vec<char>)
    ensures
        r@ == bytes_as_chars(v@),
{
    let mut r: Vec<char> = Vec::new();
    let mut i: usize = 0;
    while i < v.len()
        invariant
            i <= v@.len(),
            r@ == bytes_as_chars(v@).take(i as int),
        decreases v@.len() - i,
    {
        r.push(v[i] as char);
        i = i + 1;
        proof {
            assert(r@ =~= bytes_as_chars(v@).take(i as int));
        }
    }
    proof {
        assert(r@ =~= bytes_as_chars(v@));
    }
    r
}

/// The characters of `s`, one by one.
pub(crate) fn str_to_chars(s: &str) -> (r: Vec<char>)
    ensures
        r@ == s@,
{
    let n = s.unicode_len();
    let mut r: Vec<char> = Vec::new();
    let mut i: usize = 0;
    while i < n
        invariant
            n == s@.len(),
            i <= n,
            r@ == s@.take(i as int),
        decreases n - i,
    {
        r.push(s.get_char(i));
        i = i + 1;
        proof {
            assert(r@ =~= s@.take(i as int));
        }
    }
    proof {
        assert(r@ =~= s@);
    }
    r
}

/// A string holding exactly the characters of `v`.
pub(crate) fn chars_to_string(v: &Vec<char>) -> (r: String)
    ensures
        r@ == v@,
{
    let mut r = String::new();
    let mut i: usize = 0;
    while i < v.len()
        invariant
            i <= v@.len(),
            r@ == v@.take(i as int),
        decreases v@.len() - i,
    {
        push_char(&mut r, v[i]);
        i = i + 1;
        proof {
            assert(r@ =~= v@.take(i as int));
        }
    }
    proof {
        assert(r@ =~= v@);
    }
    r
}

/// Whether `p` occurs in `s` at position `i`.
pub(crate) fn matches_at(s: &Vec<char>, i: usize, p: &Vec<char>) -> (r: bool)
    requires
        i + p@.len() <= s@.len(),
    ensures
        r == (s@.subrange(i as int, i + p@.len()) == p@),
{
    let n = s.len();
    let mut j: usize = 0;
    while j < p.len()
        invariant
            n == s@.len(),
            i + p@.len() <= s@.len(),
            j <= p@.len(),
            forall|k: int| 0 <= k < j ==> s@[i + k] == p@[k],
        decreases p@.len() - j,
    {
        if s[i + j] != p[j] {
            proof {
                assert(s@.subrange(i as int, i + p@.len())[j as int] != p@[j as int]);
            }
            return false;
        }
        j = j + 1;
    }
    proof {
        assert(s@.subrange(i as int, i + p@.len()) =~= p@);
    }
    true
}

proof fn lemma_remove_all_step_match(s: Seq<char>, p: Seq<char>, i: int)
    requires
        0 < p.len(),
        0 <= i,
        i + p.len() <= s.len(),
        s.subrange(i, i + p.len()) == p,
    ensures
        spec_remove_all(s.skip(i), p) == spec_remove_all(s.skip(i + p.len()), p),
{
    assert(s.skip(i).take(p.len() as int) =~= s.subrange(i, i + p.len()));
    assert(s.skip(i).skip(p.len() as int) =~= s.skip(i + p.len()));
}

proof fn lemma_remove_all_step_miss(s: Seq<char>, p: Seq<char>, i: int)
    requires
        0 < p.len(),
        0 <= i < s.len(),
        i + p.len() > s.len() || s.subrange(i, i + p.len()) != p,
    ensures
        spec_remove_all(s.skip(i), p) == seq![s[i]] + spec_remove_all(s.skip(i + 1), p),
{
    if s.len() - i < p.len() {
        assert(s.skip(i).len() < p.len());
        assert(s.skip(i + 1).len() < p.len());
        assert(spec_remove_all(s.skip(i), p) == s.skip(i));
        assert(spec_remove_all(s.skip(i + 1), p) == s.skip(i + 1));
        assert(s.skip(i) =~= seq![s[i]] + s.skip(i + 1));
    } else {
        assert(s.skip(i).take(p.len() as int) =~= s.subrange(i, i + p.len()));
        assert(s.skip(i).take(p.len() as int) != p);
        assert(s.skip(i).skip(1) =~= s.skip(i + 1));
        assert(spec_remove_all(s.skip(i), p) == seq![s.skip(i)[0]] + spec_remove_all(
            s.skip(i).skip(1),
            p,
        ));
    }
}

/// `s` with every non-overlapping occurrence of `p` removed, scanning from
/// the left.
pub(crate) fn remove_all(s: &Vec<char>, p: &Vec<char>) -> (r: Vec<char>)
    requires
        p@.len() > 0,
    ensures
        r@ == spec_remove_all(s@, p@),
{
    let mut r: Vec<char> = Vec::new();
    let mut i: usize = 0;
    proof {
        assert(s@.skip(0) =~= s@);
        assert(Seq::<char>::empty() + spec_remove_all(s@, p@) =~= spec_remove_all(s@, p@));
    }
    while i < s.len()
        invariant
            p@.len() > 0,
            i <= s@.len(),
            spec_remove_all(s@, p@) == r@ + spec_remove_all(s@.skip(i as int), p@),
        decreases s@.len() - i,
    {
        if p.len() <= s.len() - i && matches_at(s, i, p) {
            proof {
                lemma_remove_all_step_match(s@, p@, i as int);
            }
            i = i + p.len();
        } else {
            proof {
                lemma_remove_all_step_miss(s@, p@, i as int);
                assert((r@ + (seq![s@[i as int]] + spec_remove_all(s@.skip(i + 1), p@))) =~= (r@
                    + seq![s@[i as int]]) + spec_remove_all(s@.skip(i + 1), p@));
                assert(r@ + seq![s@[i as int]] =~= r@.push(s@[i as int]));
            }
            r.push(s[i]);
            i = i + 1;
        }
    }
    proof {
        assert(s@.skip(i as int) =~= Seq::<char>::empty());
        assert(spec_remove_all(Seq::<char>::empty(), p@) =~= Seq::<char>::empty());
        assert(r@ + Seq::<char>::empty() =~= r@);
    }
    r
}

proof fn lemma_trim_start_skip(s: Seq<char>, i: int)
    requires
        0 <= i <= s.len(),
        forall|k: int| 0 <= k < i ==> is_ascii_ws(s[k]),
    ensures
        spec_trim_start(s) == spec_trim_start(s.skip(i)),
    decreases i,
{
    if i > 0 {
        assert(is_ascii_ws(s[0]));
        assert(spec_trim_start(s) == spec_trim_start(s.skip(1)));
        lemma_trim_start_skip(s.skip(1), i - 1);
        assert(s.skip(1).skip(i - 1) =~= s.skip(i));
    } else {
        assert(s.skip(0) =~= s);
    }
}

proof fn lemma_trim_end_take(s: Seq<char>, j: int)
    requires
        0 <= j <= s.len(),
        forall|k: int| j <= k < s.len() ==> is_ascii_ws(s[k]),
    ensures
        spec_trim_end(s) == spec_trim_end(s.take(j)),
    decreases s.len() - j,
{
    if j < s.len() {
        assert(is_ascii_ws(s[s.len() - 1]));
        assert(spec_trim_end(s) == spec_trim_end(s.drop_last()));
        lemma_trim_end_take(s.drop_last(), j);
        assert(s.drop_last().take(j) =~= s.take(j));
    } else {
        assert(s.take(j) =~= s);
    }
}

/// Whether `c` is ASCII whitespace.
pub(crate) fn is_ws(c: char) -> (r: bool)
    ensures
        r == is_ascii_ws(c),
{
    c == ' ' || c == '\t' || c == '\n' || c == '\r'
}

/// `v` without leading and trailing ASCII whitespace.
pub(crate) fn trim_ws(v: &Vec<char>) -> (r: Vec<char>)
    ensures
        r@ == spec_trim(v@),
{
    let mut lo: usize = 0;
    while lo < v.len() && is_ws(v[lo])
        invariant
            lo <= v@.len(),
            forall|k: int| 0 <= k < lo ==> is_ascii_ws(v@[k]),
        decreases v@.len() - lo,
    {
        lo = lo + 1;
    }
    proof {
        lemma_trim_start_skip(v@, lo as int);
    }
    let ghost t = v@.skip(lo as int);
    // t has no leading whitespace, so trimming it touches only its tail
    proof {
        assert(spec_trim_start(t) == t);
    }
    let mut hi: usize = v.len();
    while hi > lo && is_ws(v[hi - 1])
        invariant
            lo <= hi <= v@.len(),
            forall|k: int| hi <= k < v@.len() ==> is_ascii_ws(v@[k]),
        decreases hi,
    {
        hi = hi - 1;
    }
    proof {
        lemma_trim_end_take(t, hi - lo);
        assert(forall|k: int|
            hi - lo <= k < t.len() ==> is_ascii_ws(#[trigger] t[k]) == is_ascii_ws(
                v@[k + lo],
            ) && is_ascii_ws(v@[k + lo]));
    }
    let mut r: Vec<char> = Vec::new();
    let mut i: usize = lo;
    while i < hi
        invariant
            lo <= i <= hi <= v@.len(),
            r@ == v@.subrange(lo as int, i as int),
        decreases hi - i,
    {
        r.push(v[i]);
        i = i + 1;
        proof {
            assert(r@ =~= v@.subrange(lo as int, i as int));
        }
    }
    proof {
        assert(r@ =~= t.take(hi - lo));
        if hi == lo {
            assert(spec_trim_end(t.take(0)) =~= t.take(0));
            assert(r@ =~= spec_trim(v@));
        } else {
            assert(!is_ascii_ws(t.take(hi - lo)[hi - lo - 1]));
            assert(spec_trim_end(t.take(hi - lo)) == t.take(hi - lo));
            assert(r@ =~= spec_trim(v@));
        }
    }
    r
}

} // verus!
