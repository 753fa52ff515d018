//! The inline emphasis formatter: split a line on whitespace runs, wrap each
//! fully-uppercase word that holds a letter in `**` markers, and rejoin the
//! words with single spaces.

use vstd::prelude::*;

use crate::chars::is_alpha;
use crate::chars::is_lower;
use crate::chars::is_space;
use crate::chars::spec_is_alpha;
use crate::chars::spec_is_lower;
use crate::chars::spec_is_space;
use crate::classify::spec_no_lower;
use crate::text::chars_vec;
use crate::text::string_of;

verus! {

/// The length of the leading run of characters that are not whitespace.
pub open spec fn word_run(s: Seq<char>) -> int
    decreases s.len(),
{
    if s.len() > 0 && !spec_is_space(s[0]) {
        1 + word_run(s.drop_first())
    } else {
        0
    }
}

/// `word_run` is the index of the first whitespace character.
pub proof fn lemma_word_run(s: Seq<char>, j: int)
    requires
        0 <= j <= s.len(),
        forall|k: int| 0 <= k < j ==> !spec_is_space(s[k]),
        j < s.len() ==> spec_is_space(s[j]),
    ensures
        word_run(s) == j,
    decreases s.len(),
{
    if s.len() == 0 {
    } else if !spec_is_space(s[0]) {
        assert(j >= 1);
        let t = s.drop_first();
        assert(forall|k: int| 0 <= k < j - 1 ==> !spec_is_space(t[k]));
        lemma_word_run(t, j - 1);
    } else {
        assert(j == 0);
    }
}

/// Bounds of `word_run`, needed to unfold `spec_words`.
pub proof fn lemma_word_run_bounds(s: Seq<char>)
    ensures
        0 <= word_run(s) <= s.len(),
    decreases s.len(),
{
    if s.len() > 0 && !spec_is_space(s[0]) {
        lemma_word_run_bounds(s.drop_first());
    }
}

/// The characters of the leading word are not whitespace, and the word runs
/// up to the first whitespace character.
pub proof fn lemma_word_run_chars(s: Seq<char>)
    ensures
        forall|m: int| 0 <= m < word_run(s) ==> !spec_is_space(s[m]),
        word_run(s) < s.len() ==> spec_is_space(s[word_run(s)]),
    decreases s.len(),
{
    lemma_word_run_bounds(s);
    if s.len() > 0 && !spec_is_space(s[0]) {
        let t = s.drop_first();
        lemma_word_run_chars(t);
        lemma_word_run_bounds(t);
        assert(forall|m: int| 1 <= m < word_run(s) ==> s[m] == t[m - 1]);
    }
}

/// The words of a line: the maximal runs of characters between whitespace.
pub open spec fn spec_words(s: Seq<char>) -> Seq<Seq<char>>
    decreases s.len(),
    via spec_words_decreases
{
    if s.len() == 0 {
        Seq::empty()
    } else if spec_is_space(s[0]) {
        spec_words(s.drop_first())
    } else {
        let k = word_run(s);
        seq![s.subrange(0, k)] + spec_words(s.subrange(k, s.len() as int))
    }
}

#[via_fn]
proof fn spec_words_decreases(s: Seq<char>) {
    lemma_word_run_bounds(s);
    if s.len() > 0 {
        lemma_word_run_bounds(s.drop_first());
    }
}

/// Whether some character of the word is an ASCII letter.
pub open spec fn spec_has_alpha(w: Seq<char>) -> bool {
    exists|i: int| 0 <= i < w.len() && spec_is_alpha(w[i])
}

/// A word is shouted when it is longer than one character, reads the same as
/// its own uppercase form, and holds at least one letter.
pub open spec fn spec_is_shouted(w: Seq<char>) -> bool {
    w.len() > 1 && spec_no_lower(w) && spec_has_alpha(w)
}

/// A shouted word wrapped in bold markers; any other word unchanged.
pub open spec fn spec_emphasize(w: Seq<char>) -> Seq<char> {
    if spec_is_shouted(w) {
        seq!['*', '*'] + w + seq!['*', '*']
    } else {
        w
    }
}

/// The words joined with single spaces.
pub open spec fn spec_join(ws: Seq<Seq<char>>) -> Seq<char>
    decreases ws.len(),
{
    if ws.len() == 0 {
        Seq::empty()
    } else if ws.len() == 1 {
        ws[0]
    } else {
        ws[0] + seq![' '] + spec_join(ws.drop_first())
    }
}

/// The formatted line: every word emphasized on its own, the results joined
/// with single spaces.
pub open spec fn spec_format(s: Seq<char>) -> Seq<char> {
    spec_join(spec_words(s).map_values(|w: Seq<char>| spec_emphasize(w)))
}

/// Joining one more word appends a separating space exactly when some word
/// came before it.
pub proof fn lemma_join_push(ws: Seq<Seq<char>>, w: Seq<char>)
    ensures
        ws.len() == 0 ==> spec_join(ws.push(w)) == w,
        ws.len() > 0 ==> spec_join(ws.push(w)) == spec_join(ws) + seq![' '] + w,
    decreases ws.len(),
{
    let p = ws.push(w);
    if ws.len() == 0 {
        assert(p.len() == 1);
        assert(p[0] == w);
    } else if ws.len() == 1 {
        assert(p.len() == 2);
        assert(p[0] == ws[0]);
        assert(p.drop_first() =~= seq![w]);
        assert(spec_join(p.drop_first()) == w);
    } else {
        assert(p.drop_first() =~= ws.drop_first().push(w));
        lemma_join_push(ws.drop_first(), w);
        assert(spec_join(p) == ws[0] + seq![' '] + (spec_join(ws.drop_first()) + seq![' '] + w));
        assert(ws[0] + seq![' '] + (spec_join(ws.drop_first()) + seq![' '] + w) =~= (ws[0]
            + seq![' '] + spec_join(ws.drop_first())) + seq![' '] + w);
    }
}

/// A whitespace character between two parts of a line splits their words:
/// no word crosses it.
pub proof fn lemma_words_concat(a: Seq<char>, b: Seq<char>)
    ensures
        spec_words(a + seq![' '] + b) == spec_words(a) + spec_words(b),
    decreases a.len(),
{
    let s = a + seq![' '] + b;
    if a.len() == 0 {
        assert(s =~= seq![' '] + b);
        assert(spec_is_space(s[0]));
        assert(s.drop_first() =~= b);
        assert(Seq::<Seq<char>>::empty() + spec_words(b) =~= spec_words(b));
    } else if spec_is_space(a[0]) {
        assert(s[0] == a[0]);
        assert(s.drop_first() =~= a.drop_first() + seq![' '] + b);
        lemma_words_concat(a.drop_first(), b);
    } else {
        assert(s[0] == a[0]);
        let k = word_run(a);
        lemma_word_run_bounds(a);
        lemma_word_run_chars(a);
        assert(k >= 1);
        assert(forall|m: int| 0 <= m < k ==> s[m] == a[m]);
        if k < a.len() {
            assert(s[k] == a[k]);
        } else {
            assert(s[k] == ' ');
        }
        lemma_word_run(s, k);
        assert(s.subrange(0, k) =~= a.subrange(0, k));
        assert(s.subrange(k, s.len() as int) =~= a.subrange(k, a.len() as int) + seq![' '] + b);
        lemma_words_concat(a.subrange(k, a.len() as int), b);
        assert(seq![s.subrange(0, k)] + (spec_words(a.subrange(k, a.len() as int)) + spec_words(b))
            =~= (seq![a.subrange(0, k)] + spec_words(a.subrange(k, a.len() as int))) + spec_words(
            b,
        ));
    }
}

/// Joining two non-empty word lists joins each on its own, with one space
/// between the two.
pub proof fn lemma_join_concat(u: Seq<Seq<char>>, v: Seq<Seq<char>>)
    requires
        u.len() > 0,
        v.len() > 0,
    ensures
        spec_join(u + v) == spec_join(u) + seq![' '] + spec_join(v),
    decreases u.len(),
{
    let s = u + v;
    assert(s[0] == u[0]);
    if u.len() == 1 {
        assert(s.drop_first() =~= v);
        if v.len() == 1 {
            assert(spec_join(s) == s[0] + seq![' '] + spec_join(v));
        }
    } else {
        assert(s.drop_first() =~= u.drop_first() + v);
        lemma_join_concat(u.drop_first(), v);
        assert(u[0] + seq![' '] + (spec_join(u.drop_first()) + seq![' '] + spec_join(v)) =~= (u[0]
            + seq![' '] + spec_join(u.drop_first())) + seq![' '] + spec_join(v));
    }
}

/// Format the characters of one line.
pub fn format_chars(s: &Vec<char>) -> (r: Vec<char>)
    ensures
        r@ == spec_format(s@),
{
    let n = s.len();
    let mut out: Vec<char> = Vec::new();
    let ghost mut ws: Seq<Seq<char>> = Seq::empty();
    let mut i: usize = 0;
    proof {
        assert(s@.subrange(0, n as int) =~= s@);
        assert(Seq::<Seq<char>>::empty() + spec_words(s@) =~= spec_words(s@));
    }
    while i < n
        invariant
            n == s@.len(),
            i <= n,
            spec_words(s@) == ws + spec_words(s@.subrange(i as int, n as int)),
            out@ == spec_join(ws.map_values(|w: Seq<char>| spec_emphasize(w))),
            ws.len() == 0 <==> out@.len() == 0,
        decreases n - i,
    {
        if is_space(s[i]) {
            proof {
                let rest = s@.subrange(i as int, n as int);
                assert(rest[0] == s@[i as int]);
                assert(rest.drop_first() =~= s@.subrange(i + 1 as int, n as int));
            }
            i = i + 1;
        } else {
            // the word spans [i, j)
            let mut j: usize = i + 1;
            while j < n && !is_space(s[j])
                invariant
                    n == s@.len(),
                    i < j <= n,
                    forall|k: int| i <= k < j ==> !spec_is_space(s@[k]),
                decreases n - j,
            {
                j = j + 1;
            }
            // decide whether the word is shouted
            let mut no_lower = true;
            let mut has_alpha = false;
            let mut k: usize = i;
            while k < j
                invariant
                    i <= k <= j <= n == s@.len(),
                    no_lower == (forall|m: int| i <= m < k ==> !spec_is_lower(s@[m])),
                    has_alpha == (exists|m: int| i <= m < k && spec_is_alpha(s@[m])),
                decreases j - k,
            {
                if is_lower(s[k]) {
                    no_lower = false;
                }
                if is_alpha(s[k]) {
                    has_alpha = true;
                }
                k = k + 1;
            }
            let ghost w = s@.subrange(i as int, j as int);
            let shouted = j - i > 1 && no_lower && has_alpha;
            proof {
                assert(w.len() == j - i);
                assert(forall|m: int| 0 <= m < w.len() ==> w[m] == s@[i + m]);
                if no_lower {
                    assert(forall|m: int| 0 <= m < w.len() ==> !spec_is_lower(w[m]));
                } else {
                    let m0 = choose|m: int| i <= m < j && spec_is_lower(s@[m]);
                    assert(w[m0 - i] == s@[m0]);
                    assert(!spec_no_lower(w));
                }
                if has_alpha {
                    let m1 = choose|m: int| i <= m < j && spec_is_alpha(s@[m]);
                    assert(w[m1 - i] == s@[m1]);
                    assert(spec_has_alpha(w));
                } else {
                    assert(forall|m: int| 0 <= m < w.len() ==> !spec_is_alpha(w[m]));
                }
                assert(shouted == spec_is_shouted(w));
            }
            let ghost out0 = out@;
            if out.len() > 0 {
                out.push(' ');
            }
            let ghost sep = out@;
            if shouted {
                out.push('*');
                out.push('*');
            }
            let ghost opened = out@;
            let mut m: usize = i;
            while m < j
                invariant
                    i <= m <= j <= n == s@.len(),
                    out@ == opened + s@.subrange(i as int, m as int),
                decreases j - m,
            {
                out.push(s[m]);
                proof {
                    assert(opened + s@.subrange(i as int, m + 1 as int) =~= (opened + s@.subrange(
                        i as int,
                        m as int,
                    )).push(s@[m as int]));
                }
                m = m + 1;
            }
            if shouted {
                out.push('*');
                out.push('*');
            }
            proof {
                let rest = s@.subrange(i as int, n as int);
                assert(forall|k2: int| 0 <= k2 < j - i ==> rest[k2] == s@[i + k2]);
                lemma_word_run(rest, j - i);
                assert(rest.subrange(0, j - i) =~= w);
                assert(rest.subrange(j - i, rest.len() as int) =~= s@.subrange(j as int, n as int));
                assert(spec_words(rest) == seq![w] + spec_words(s@.subrange(j as int, n as int)));
                assert(ws + spec_words(rest) =~= ws.push(w) + spec_words(
                    s@.subrange(j as int, n as int),
                ));
                let f = |w2: Seq<char>| spec_emphasize(w2);
                assert(ws.push(w).map_values(f) =~= ws.map_values(f).push(spec_emphasize(w)));
                lemma_join_push(ws.map_values(f), spec_emphasize(w));
                if ws.len() == 0 {
                    assert(out@ =~= spec_emphasize(w));
                } else {
                    assert(sep =~= out0 + seq![' ']);
                    assert(out@ =~= (out0 + seq![' ']) + spec_emphasize(w));
                }
                ws = ws.push(w);
                assert(w.len() > 0);
                assert(spec_emphasize(w).len() > 0);
            }
            i = j;
        }
    }
    proof {
        assert(s@.subrange(n as int, n as int) =~= Seq::<char>::empty());
        assert(ws + spec_words(Seq::<char>::empty()) =~= ws);
    }
    out
}

/// Rewrites a line, wrapping each shouted word in bold markers and joining
/// the words with single spaces; leading and trailing whitespace is gone
/// from the result.
pub fn detect_and_format(text: &str) -> (r: String)
    ensures
        r@ == spec_format(text@),
{
    let cs = chars_vec(text);
    let out = format_chars(&cs);
    string_of(&out)
}

} // verus!
