//! The line classifier and the heading level resolver.
//!
//! A trimmed, non-blank line may start with an enumeration marker: a run of
//! digits and dots that begins with a digit, or a run of `#`, either followed
//! by whitespace. The marker is the line's prefix; what follows the
//! whitespace is its body. A line is a heading when its prefix holds a dot,
//! or when the likely-heading heuristic accepts it. The resolver then maps
//! the prefix and the line to a depth between 1 and 3.

use vstd::prelude::*;

use crate::chars::is_digit;
use crate::chars::is_lower;
use crate::chars::is_space;
use crate::chars::spec_is_digit;
use crate::chars::spec_is_lower;
use crate::chars::spec_is_space;
use crate::text::chars_vec;
use crate::text::string_of;

verus! {

/// Whether the character may stand in a numeric enumeration marker.
pub open spec fn spec_is_digit_or_dot(c: char) -> bool {
    spec_is_digit(c) || c == '.'
}

/// The length of the leading run of digits and dots.
pub open spec fn digit_dot_run(s: Seq<char>) -> int
    decreases s.len(),
{
    if s.len() > 0 && spec_is_digit_or_dot(s[0]) {
        1 + digit_dot_run(s.drop_first())
    } else {
        0
    }
}

/// The length of the leading run of `#` characters.
pub open spec fn hash_run(s: Seq<char>) -> int
    decreases s.len(),
{
    if s.len() > 0 && s[0] == '#' {
        1 + hash_run(s.drop_first())
    } else {
        0
    }
}

/// `digit_dot_run` is the index of the first character that is neither a
/// digit nor a dot.
proof fn lemma_digit_dot_run(s: Seq<char>, j: int)
    requires
        0 <= j <= s.len(),
        forall|k: int| 0 <= k < j ==> spec_is_digit_or_dot(s[k]),
        j < s.len() ==> !spec_is_digit_or_dot(s[j]),
    ensures
        digit_dot_run(s) == j,
    decreases s.len(),
{
    if s.len() == 0 {
    } else if spec_is_digit_or_dot(s[0]) {
        assert(j >= 1);
        let t = s.drop_first();
        assert(forall|k: int| 0 <= k < j - 1 ==> spec_is_digit_or_dot(t[k]));
        lemma_digit_dot_run(t, j - 1);
    } else {
        assert(j == 0);
    }
}

/// `hash_run` is the index of the first character that is not `#`.
proof fn lemma_hash_run(s: Seq<char>, j: int)
    requires
        0 <= j <= s.len(),
        forall|k: int| 0 <= k < j ==> s[k] == '#',
        j < s.len() ==> s[j] != '#',
    ensures
        hash_run(s) == j,
    decreases s.len(),
{
    if s.len() == 0 {
    } else if s[0] == '#' {
        assert(j >= 1);
        let t = s.drop_first();
        assert(forall|k: int| 0 <= k < j - 1 ==> t[k] == '#');
        lemma_hash_run(t, j - 1);
    } else {
        assert(j == 0);
    }
}

/// Whether the character occurs in the sequence.
pub open spec fn seq_contains(s: Seq<char>, c: char) -> bool {
    exists|i: int| 0 <= i < s.len() && s[i] == c
}

/// The line opens with a numeric enumeration marker: a run of digits and
/// dots that starts with a digit and holds a dot, followed by whitespace.
pub open spec fn has_numeric_marker(t: Seq<char>) -> bool {
    let k = digit_dot_run(t);
    k > 0 && spec_is_digit(t[0]) && seq_contains(t.subrange(0, k), '.') && k < t.len()
        && spec_is_space(t[k])
}

/// The line opens with a `#` marker: a run of `#`, followed by whitespace.
pub open spec fn has_hash_marker(t: Seq<char>) -> bool {
    let k = hash_run(t);
    k > 0 && k < t.len() && spec_is_space(t[k])
}

/// The sequence with its leading whitespace removed.
pub open spec fn spec_skip_spaces(s: Seq<char>) -> Seq<char>
    decreases s.len(),
{
    if s.len() > 0 && spec_is_space(s[0]) {
        spec_skip_spaces(s.drop_first())
    } else {
        s
    }
}

/// `spec_skip_spaces` keeps exactly the span from the first character that
/// is not whitespace.
proof fn lemma_skip_spaces(s: Seq<char>, m: int)
    requires
        0 <= m <= s.len(),
        forall|k: int| 0 <= k < m ==> spec_is_space(s[k]),
        m < s.len() ==> !spec_is_space(s[m]),
    ensures
        spec_skip_spaces(s) == s.subrange(m, s.len() as int),
    decreases s.len(),
{
    if s.len() == 0 {
        assert(s.subrange(0, 0) =~= s);
    } else if spec_is_space(s[0]) {
        assert(m >= 1);
        let t = s.drop_first();
        assert(forall|k: int| 0 <= k < m - 1 ==> spec_is_space(t[k]));
        lemma_skip_spaces(t, m - 1);
        assert(t.subrange(m - 1, t.len() as int) =~= s.subrange(m, s.len() as int));
    } else {
        assert(m == 0);
        assert(s.subrange(0, s.len() as int) =~= s);
    }
}

/// The line's marker prefix: the enumeration run itself, or empty when the
/// line opens with no marker.
pub open spec fn spec_prefix(t: Seq<char>) -> Seq<char> {
    if has_numeric_marker(t) {
        t.subrange(0, digit_dot_run(t))
    } else if has_hash_marker(t) {
        t.subrange(0, hash_run(t))
    } else {
        Seq::empty()
    }
}

/// The line's body: what follows the marker and its whitespace, or the whole
/// line when there is no marker.
pub open spec fn spec_body(t: Seq<char>) -> Seq<char> {
    if has_numeric_marker(t) {
        spec_skip_spaces(t.subrange(digit_dot_run(t), t.len() as int))
    } else if has_hash_marker(t) {
        spec_skip_spaces(t.subrange(hash_run(t), t.len() as int))
    } else {
        t
    }
}

/// The likely-heading heuristic: shorter than 100 characters, not ended by a
/// period, and holding no comma.
pub open spec fn spec_is_likely_heading(t: Seq<char>) -> bool {
    t.len() < 100 && !(t.len() > 0 && t[t.len() - 1] == '.') && !seq_contains(t, ',')
}

/// A trimmed, non-blank line is a heading when its prefix holds a dot or the
/// likely-heading heuristic accepts the whole line.
pub open spec fn spec_is_heading(t: Seq<char>) -> bool {
    seq_contains(spec_prefix(t), '.') || spec_is_likely_heading(t)
}

/// Whether `s` opens with `p`.
pub open spec fn starts_with(s: Seq<char>, p: Seq<char>) -> bool {
    p.len() <= s.len() && s.subrange(0, p.len() as int) == p
}

/// No character of the line is an ASCII lowercase letter, so the line reads
/// the same as its own uppercase form.
pub open spec fn spec_no_lower(t: Seq<char>) -> bool {
    forall|i: int| 0 <= i < t.len() ==> !spec_is_lower(t[i])
}

/// The heading depth, resolved from the prefix and the whole line, first
/// match winning: a prefix opening with `1.` gives depth 1; one opening with
/// `1.1` or `2.` gives depth 2; a short line with no lowercase letter gives
/// depth 1; anything else gives depth 3.
pub open spec fn spec_heading_level(prefix: Seq<char>, t: Seq<char>) -> int {
    if starts_with(prefix, seq!['1', '.']) {
        1
    } else if starts_with(prefix, seq!['1', '.', '1']) || starts_with(prefix, seq!['2', '.']) {
        2
    } else if t.len() < 30 && spec_no_lower(t) {
        1
    } else {
        3
    }
}

/// Whether the character sequence holds the given character.
pub fn contains_char(t: &Vec<char>, c: char) -> (r: bool)
    ensures
        r == seq_contains(t@, c),
{
    let mut i: usize = 0;
    while i < t.len()
        invariant
            i <= t@.len(),
            forall|k: int| 0 <= k < i ==> t@[k] != c,
        decreases t.len() - i,
    {
        if t[i] == c {
            return true;
        }
        i = i + 1;
    }
    false
}

/// The likely-heading heuristic on a vector of characters.
pub fn likely_heading_chars(t: &Vec<char>) -> (r: bool)
    ensures
        r == spec_is_likely_heading(t@),
{
    if t.len() >= 100 {
        return false;
    }
    if t.len() > 0 && t[t.len() - 1] == '.' {
        return false;
    }
    !contains_char(t, ',')
}

/// Decides whether a trimmed line would pass for a heading on its shape
/// alone: short, not ended by a period, and free of commas.
pub fn is_likely_heading(line: &str) -> (r: bool)
    ensures
        r == spec_is_likely_heading(line@),
{
    let cs = chars_vec(line);
    likely_heading_chars(&cs)
}

/// Split a trimmed, non-blank line into its marker prefix and its body.
pub fn marker_chars(t: &Vec<char>) -> (r: (Vec<char>, Vec<char>))
    ensures
        r.0@ == spec_prefix(t@),
        r.1@ == spec_body(t@),
{
    let n = t.len();
    // length of the leading run of digits and dots
    let mut k: usize = 0;
    while k < n && (is_digit(t[k]) || t[k] == '.')
        invariant
            n == t@.len(),
            k <= n,
            forall|m: int| 0 <= m < k ==> spec_is_digit_or_dot(t@[m]),
        decreases n - k,
    {
        k = k + 1;
    }
    proof {
        lemma_digit_dot_run(t@, k as int);
    }
    // whether the run holds a dot
    let mut dotted = false;
    let mut d: usize = 0;
    while d < k
        invariant
            d <= k <= n == t@.len(),
            dotted == (exists|m: int| 0 <= m < d && t@[m] == '.'),
        decreases k - d,
    {
        if t[d] == '.' {
            dotted = true;
        }
        d = d + 1;
    }
    proof {
        let run = t@.subrange(0, k as int);
        assert(forall|m: int| 0 <= m < k ==> run[m] == t@[m]);
        if dotted {
            let m0 = choose|m: int| 0 <= m < k && t@[m] == '.';
            assert(run[m0] == '.');
            assert(seq_contains(run, '.'));
        } else {
            assert(forall|m: int| 0 <= m < run.len() ==> run[m] != '.');
        }
        assert(dotted == seq_contains(run, '.'));
    }
    let numeric = k > 0 && is_digit(t[0]) && dotted && k < n && is_space(t[k]);
    // length of the leading run of '#'
    let mut h: usize = 0;
    while h < n && t[h] == '#'
        invariant
            n == t@.len(),
            h <= n,
            forall|m: int| 0 <= m < h ==> t@[m] == '#',
        decreases n - h,
    {
        h = h + 1;
    }
    proof {
        lemma_hash_run(t@, h as int);
    }
    let hashed = h > 0 && h < n && is_space(t[h]);
    let run: usize = if numeric {
        k
    } else if hashed {
        h
    } else {
        0
    };
    if numeric || hashed {
        let mut prefix: Vec<char> = Vec::new();
        let mut i: usize = 0;
        while i < run
            invariant
                run <= n == t@.len(),
                i <= run,
                prefix@ == t@.subrange(0, i as int),
            decreases run - i,
        {
            prefix.push(t[i]);
            proof {
                assert(t@.subrange(0, i + 1 as int) =~= t@.subrange(0, i as int).push(
                    t@[i as int],
                ));
            }
            i = i + 1;
        }
        // skip the whitespace after the marker
        let mut b: usize = run;
        while b < n && is_space(t[b])
            invariant
                run <= b <= n == t@.len(),
                forall|m: int| run <= m < b ==> spec_is_space(t@[m]),
            decreases n - b,
        {
            b = b + 1;
        }
        let mut body: Vec<char> = Vec::new();
        let mut j: usize = b;
        while j < n
            invariant
                b <= j <= n == t@.len(),
                body@ == t@.subrange(b as int, j as int),
            decreases n - j,
        {
            body.push(t[j]);
            proof {
                assert(t@.subrange(b as int, j + 1 as int) =~= t@.subrange(b as int, j as int).push(
                    t@[j as int],
                ));
            }
            j = j + 1;
        }
        proof {
            let tail = t@.subrange(run as int, n as int);
            assert(forall|m: int| 0 <= m < b - run ==> spec_is_space(tail[m]));
            lemma_skip_spaces(tail, b - run as int);
            assert(tail.subrange(b - run as int, tail.len() as int) =~= t@.subrange(
                b as int,
                n as int,
            ));
        }
        (prefix, body)
    } else {
        let prefix: Vec<char> = Vec::new();
        let mut body: Vec<char> = Vec::new();
        let mut j: usize = 0;
        while j < n
            invariant
                j <= n == t@.len(),
                body@ == t@.subrange(0, j as int),
            decreases n - j,
        {
            body.push(t[j]);
            proof {
                assert(t@.subrange(0, j + 1 as int) =~= t@.subrange(0, j as int).push(
                    t@[j as int],
                ));
            }
            j = j + 1;
        }
        proof {
            assert(t@.subrange(0, n as int) =~= t@);
            assert(prefix@ =~= Seq::<char>::empty());
        }
        (prefix, body)
    }
}

/// Split a line into its enumeration marker and its body text.
pub fn split_marker(line: &str) -> (r: (String, String))
    ensures
        r.0@ == spec_prefix(line@),
        r.1@ == spec_body(line@),
{
    let cs = chars_vec(line);
    let (prefix, body) = marker_chars(&cs);
    (string_of(&prefix), string_of(&body))
}

/// Whether the line holds no ASCII lowercase letter.
pub fn no_lower_chars(t: &Vec<char>) -> (r: bool)
    ensures
        r == spec_no_lower(t@),
{
    let mut i: usize = 0;
    while i < t.len()
        invariant
            i <= t@.len(),
            forall|k: int| 0 <= k < i ==> !spec_is_lower(t@[k]),
        decreases t.len() - i,
    {
        if is_lower(t[i]) {
            return false;
        }
        i = i + 1;
    }
    true
}

/// The heading level resolver on vectors of characters.
pub fn heading_level_chars(prefix: &Vec<char>, t: &Vec<char>) -> (r: usize)
    ensures
        r as int == spec_heading_level(prefix@, t@),
        1 <= r <= 3,
{
    let one_dot = prefix.len() >= 2 && prefix[0] == '1' && prefix[1] == '.';
    proof {
        if prefix@.len() >= 2 {
            assert(prefix@.subrange(0, 2) =~= seq![prefix@[0], prefix@[1]]);
        }
        assert(one_dot == starts_with(prefix@, seq!['1', '.']));
    }
    if one_dot {
        return 1;
    }
    let one_one = prefix.len() >= 3 && prefix[0] == '1' && prefix[1] == '.' && prefix[2] == '1';
    let two_dot = prefix.len() >= 2 && prefix[0] == '2' && prefix[1] == '.';
    proof {
        if prefix@.len() >= 3 {
            assert(prefix@.subrange(0, 3) =~= seq![prefix@[0], prefix@[1], prefix@[2]]);
        }
        if prefix@.len() >= 2 {
            assert(prefix@.subrange(0, 2) =~= seq![prefix@[0], prefix@[1]]);
        }
        assert(one_one == starts_with(prefix@, seq!['1', '.', '1']));
        assert(two_dot == starts_with(prefix@, seq!['2', '.']));
    }
    if one_one || two_dot {
        return 2;
    }
    if t.len() < 30 && no_lower_chars(t) {
        return 1;
    }
    3
}

/// Resolves the heading depth for a line, given its extracted marker prefix
/// and the whole trimmed line.
pub fn determine_heading_level(prefix: &str, text: &str) -> (r: usize)
    ensures
        r as int == spec_heading_level(prefix@, text@),
        1 <= r <= 3,
{
    let p = chars_vec(prefix);
    let t = chars_vec(text);
    heading_level_chars(&p, &t)
}

/// The heading test on a vector of characters.
pub fn heading_chars(t: &Vec<char>) -> (r: bool)
    ensures
        r == spec_is_heading(t@),
{
    let (prefix, _body) = marker_chars(t);
    if contains_char(&prefix, '.') {
        true
    } else {
        likely_heading_chars(t)
    }
}

} // verus!
