//! The text model: trimming a line, splitting a text into physical lines,
//! and moving between `String` and `Vec<char>` at the crate's boundary.

use vstd::prelude::*;
use vstd::string::StrSliceExecFns;

use crate::chars::is_space;
use crate::chars::spec_is_space;

verus! {

/// The line with ASCII whitespace removed from both ends.
pub open spec fn spec_trim(s: Seq<char>) -> Seq<char>
    decreases s.len(),
{
    if s.len() > 0 && spec_is_space(s[0]) {
        spec_trim(s.drop_first())
    } else if s.len() > 0 && spec_is_space(s[s.len() - 1]) {
        spec_trim(s.drop_last())
    } else {
        s
    }
}

/// Trimming keeps exactly the span between the first and last characters
/// that are not whitespace.
proof fn lemma_trim_subrange(s: Seq<char>, lo: int, hi: int)
    requires
        0 <= lo <= hi <= s.len(),
        forall|k: int| 0 <= k < lo ==> spec_is_space(s[k]),
        forall|k: int| hi <= k < s.len() ==> spec_is_space(s[k]),
        lo < hi ==> !spec_is_space(s[lo]),
        lo < hi ==> !spec_is_space(s[hi - 1]),
    ensures
        spec_trim(s) == s.subrange(lo, hi),
    decreases s.len(),
{
    if s.len() == 0 {
        assert(s.subrange(lo, hi) =~= s);
    } else if spec_is_space(s[0]) {
        let t = s.drop_first();
        if lo > 0 {
            assert(forall|k: int| 0 <= k < lo - 1 ==> spec_is_space(t[k]));
            assert(forall|k: int| hi - 1 <= k < t.len() ==> spec_is_space(t[k]));
            lemma_trim_subrange(t, lo - 1, hi - 1);
            assert(t.subrange(lo - 1, hi - 1) =~= s.subrange(lo, hi));
        } else {
            // lo == 0, and s[0] is whitespace, so lo == hi: everything is whitespace
            assert(lo == hi);
            assert(forall|k: int| 0 <= k < t.len() ==> spec_is_space(t[k]));
            lemma_trim_subrange(t, 0, 0);
            assert(t.subrange(0, 0) =~= s.subrange(lo, hi));
        }
    } else if spec_is_space(s[s.len() - 1]) {
        // the first character is not whitespace, so lo == 0 and lo < hi
        assert(lo == 0);
        assert(lo < hi);
        assert(hi < s.len());
        let t = s.drop_last();
        assert(forall|k: int| hi <= k < t.len() ==> spec_is_space(t[k]));
        lemma_trim_subrange(t, lo, hi);
        assert(t.subrange(lo, hi) =~= s.subrange(lo, hi));
    } else {
        assert(lo == 0);
        assert(hi == s.len());
        assert(s.subrange(lo, hi) =~= s);
    }
}

/// Trim ASCII whitespace from both ends of a line of characters.
pub fn trim_chars(s: &Vec<char>) -> (r: Vec<char>)
    ensures
        r@ == spec_trim(s@),
{
    let mut lo: usize = 0;
    while lo < s.len() && is_space(s[lo])
        invariant
            lo <= s.len(),
            forall|k: int| 0 <= k < lo ==> spec_is_space(s@[k]),
        decreases s.len() - lo,
    {
        lo = lo + 1;
    }
    let mut hi: usize = s.len();
    while hi > lo && is_space(s[hi - 1])
        invariant
            lo <= hi <= s.len(),
            forall|k: int| hi <= k < s.len() ==> spec_is_space(s@[k]),
        decreases hi,
    {
        hi = hi - 1;
    }
    let mut r: Vec<char> = Vec::new();
    let mut k: usize = lo;
    while k < hi
        invariant
            lo <= k <= hi <= s.len(),
            r@ == s@.subrange(lo as int, k as int),
        decreases hi - k,
    {
        r.push(s[k]);
        proof {
            assert(s@.subrange(lo as int, k + 1 as int) =~= s@.subrange(lo as int, k as int).push(
                s@[k as int],
            ));
        }
        k = k + 1;
    }
    proof {
        lemma_trim_subrange(s@, lo as int, hi as int);
    }
    r
}

/// The position of the first line feed, or the length when there is none.
pub open spec fn first_newline(s: Seq<char>) -> int
    decreases s.len(),
{
    if s.len() == 0 {
        0
    } else if s[0] == '\n' {
        0
    } else {
        1 + first_newline(s.drop_first())
    }
}

/// `first_newline` is the index of the first line feed.
pub proof fn lemma_first_newline(s: Seq<char>, j: int)
    requires
        0 <= j <= s.len(),
        forall|k: int| 0 <= k < j ==> s[k] != '\n',
        j < s.len() ==> s[j] == '\n',
    ensures
        first_newline(s) == j,
    decreases s.len(),
{
    if s.len() == 0 {
    } else if s[0] == '\n' {
        assert(j == 0);
    } else {
        assert(j >= 1);
        let t = s.drop_first();
        assert(forall|k: int| 0 <= k < j - 1 ==> t[k] != '\n');
        lemma_first_newline(t, j - 1);
    }
}

/// Bounds of `first_newline`, needed to unfold `split_lines`.
pub proof fn lemma_first_newline_bounds(s: Seq<char>)
    ensures
        0 <= first_newline(s) <= s.len(),
    decreases s.len(),
{
    if s.len() == 0 {
    } else if s[0] == '\n' {
    } else {
        lemma_first_newline_bounds(s.drop_first());
    }
}

/// The physical lines of a text: the pieces between line feeds, with no final
/// empty piece when the text ends in a line feed.
pub open spec fn split_lines(text: Seq<char>) -> Seq<Seq<char>>
    decreases text.len(),
    via split_lines_decreases
{
    if text.len() == 0 {
        Seq::empty()
    } else {
        let j = first_newline(text);
        if j == text.len() {
            seq![text]
        } else {
            seq![text.subrange(0, j)] + split_lines(
                text.subrange(j + 1, text.len() as int),
            )
        }
    }
}

#[via_fn]
proof fn split_lines_decreases(text: Seq<char>) {
    lemma_first_newline_bounds(text);
}

/// The characters of a string slice, in order.
pub fn chars_vec(s: &str) -> (r: Vec<char>)
    ensures
        r@ == s@,
{
    let n = s.unicode_len();
    let mut r: Vec<char> = Vec::new();
    let mut i: usize = 0;
    while i < n
        invariant
            n == s@.len(),
            i <= n,
            r@ == s@.take(i as int),
        decreases n - i,
    {
        let c = s.get_char(i);
        r.push(c);
        proof {
            assert(s@.take(i + 1 as int) =~= s@.take(i as int).push(s@[i as int]));
        }
        i = i + 1;
    }
    proof {
        assert(s@.take(n as int) =~= s@);
    }
    r
}

/// Relies on `String::push`: appends the given character at the end.
#[verifier::external_body]
fn push_char(s: &mut String, c: char)
    ensures
        final(s)@ == old(s)@.push(c),
{
    s.push(c);
}

/// A string holding exactly the given characters, in order.
pub fn string_of(v: &Vec<char>) -> (r: String)
    ensures
        r@ == v@,
{
    let mut s = String::new();
    let mut i: usize = 0;
    while i < v.len()
        invariant
            i <= v@.len(),
            s@ == v@.take(i as int),
        decreases v.len() - i,
    {
        push_char(&mut s, v[i]);
        proof {
            assert(v@.take(i + 1 as int) =~= v@.take(i as int).push(v@[i as int]));
        }
        i = i + 1;
    }
    proof {
        assert(v@.take(v@.len() as int) =~= v@);
    }
    s
}

/// Append the characters of `src` at the end of `acc`.
pub fn extend_chars(acc: &mut Vec<char>, src: &Vec<char>)
    ensures
        final(acc)@ == old(acc)@ + src@,
{
    let mut i: usize = 0;
    while i < src.len()
        invariant
            i <= src@.len(),
            acc@ == old(acc)@ + src@.take(i as int),
        decreases src.len() - i,
    {
        acc.push(src[i]);
        proof {
            assert(old(acc)@ + src@.take(i + 1 as int) =~= (old(acc)@ + src@.take(i as int)).push(
                src@[i as int],
            ));
        }
        i = i + 1;
    }
    proof {
        assert(old(acc)@ + src@.take(src@.len() as int) =~= old(acc)@ + src@);
    }
}

} // verus!
