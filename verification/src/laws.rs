//! General laws of the conversion, proved over the same spec functions that
//! the public contracts use.

use vstd::prelude::*;

use crate::assemble::BlockMode;
use crate::assemble::ends_with_break;
use crate::assemble::spec_assemble;
use crate::assemble::spec_convert;
use crate::assemble::spec_step;
use crate::chars::spec_is_space;
use crate::classify::seq_contains;
use crate::classify::spec_heading_level;
use crate::classify::spec_is_heading;
use crate::classify::starts_with;
use crate::emphasis::lemma_join_concat;
use crate::emphasis::lemma_word_run_bounds;
use crate::emphasis::lemma_words_concat;
use crate::emphasis::spec_emphasize;
use crate::emphasis::spec_format;
use crate::emphasis::spec_is_shouted;
use crate::emphasis::spec_join;
use crate::emphasis::spec_words;
use crate::emphasis::word_run;
use crate::hard_break;
use crate::text::lemma_first_newline;
use crate::text::spec_trim;
use crate::text::split_lines;

verus! {

/// A blank input converts to a blank output, so converting an already-blank
/// text again changes nothing.
pub proof fn lemma_blank_input()
    ensures
        spec_convert(Seq::<char>::empty()) == Seq::<char>::empty(),
{
    assert(split_lines(Seq::<char>::empty()) =~= Seq::<Seq<char>>::empty());
}

/// Trimming drops characters and adds none.
proof fn lemma_trim_no_char(s: Seq<char>, c: char)
    requires
        !seq_contains(s, c),
    ensures
        !seq_contains(spec_trim(s), c),
    decreases s.len(),
{
    if s.len() > 0 && spec_is_space(s[0]) {
        let t = s.drop_first();
        assert(forall|i: int| 0 <= i < t.len() ==> t[i] == s[i + 1]);
        assert(!seq_contains(t, c));
        lemma_trim_no_char(t, c);
    } else if s.len() > 0 && spec_is_space(s[s.len() - 1]) {
        let t = s.drop_last();
        assert(forall|i: int| 0 <= i < t.len() ==> t[i] == s[i]);
        assert(!seq_contains(t, c));
        lemma_trim_no_char(t, c);
    }
}

/// Every word of a line is made of the line's own characters.
proof fn lemma_words_no_char(s: Seq<char>, c: char)
    requires
        !seq_contains(s, c),
    ensures
        forall|i: int|
            0 <= i < spec_words(s).len() ==> !seq_contains(#[trigger] spec_words(s)[i], c),
    decreases s.len(),
{
    if s.len() == 0 {
    } else if spec_is_space(s[0]) {
        let t = s.drop_first();
        assert(forall|i: int| 0 <= i < t.len() ==> t[i] == s[i + 1]);
        assert(!seq_contains(t, c));
        lemma_words_no_char(t, c);
        assert(spec_words(s) == spec_words(t));
    } else {
        let k = word_run(s);
        lemma_word_run_bounds(s);
        lemma_word_run_bounds(s.drop_first());
        assert(k >= 1);
        let w = s.subrange(0, k);
        let rest = s.subrange(k, s.len() as int);
        assert(forall|i: int| 0 <= i < w.len() ==> w[i] == s[i]);
        assert(forall|i: int| 0 <= i < rest.len() ==> rest[i] == s[k + i]);
        assert(!seq_contains(w, c));
        assert(!seq_contains(rest, c));
        lemma_words_no_char(rest, c);
        assert(spec_words(s) == seq![w] + spec_words(rest));
        assert(spec_words(s)[0] == w);
        assert(forall|i: int|
            1 <= i < spec_words(s).len() ==> spec_words(s)[i] == spec_words(rest)[i - 1]);
    }
}

/// Joining words with spaces introduces no character beside the space.
proof fn lemma_join_no_char(ws: Seq<Seq<char>>, c: char)
    requires
        c != ' ',
        forall|i: int| 0 <= i < ws.len() ==> !seq_contains(#[trigger] ws[i], c),
    ensures
        !seq_contains(spec_join(ws), c),
    decreases ws.len(),
{
    if ws.len() == 0 {
    } else if ws.len() == 1 {
        assert(spec_join(ws) == ws[0]);
    } else {
        let rest = ws.drop_first();
        assert(forall|i: int| 0 <= i < rest.len() ==> rest[i] == ws[i + 1]);
        lemma_join_no_char(rest, c);
        let j = spec_join(ws);
        assert(j == ws[0] + seq![' '] + spec_join(rest));
        if seq_contains(j, c) {
            let i = choose|i: int| 0 <= i < j.len() && j[i] == c;
            if i < ws[0].len() {
                assert(ws[0][i] == c);
                assert(seq_contains(ws[0], c));
            } else if i == ws[0].len() {
                assert(j[i] == ' ');
            } else {
                assert(j[i] == spec_join(rest)[i - ws[0].len() - 1]);
                assert(seq_contains(spec_join(rest), c));
            }
            assert(false);
        }
    }
}

/// Emphasis markers introduce no character beside the asterisk.
proof fn lemma_emphasize_no_char(w: Seq<char>, c: char)
    requires
        c != '*',
        !seq_contains(w, c),
    ensures
        !seq_contains(spec_emphasize(w), c),
{
    if spec_is_shouted(w) {
        let e = spec_emphasize(w);
        if seq_contains(e, c) {
            let i = choose|i: int| 0 <= i < e.len() && e[i] == c;
            if 2 <= i < 2 + w.len() {
                assert(e[i] == w[i - 2]);
                assert(seq_contains(w, c));
            } else {
                assert(e[i] == '*');
            }
            assert(false);
        }
    }
}

/// Formatting a line without line feeds yields a result without line feeds.
proof fn lemma_format_no_newline(s: Seq<char>)
    requires
        !seq_contains(s, '\n'),
    ensures
        !seq_contains(spec_format(s), '\n'),
{
    lemma_words_no_char(s, '\n');
    let f = |w: Seq<char>| spec_emphasize(w);
    let mapped = spec_words(s).map_values(f);
    assert forall|i: int| 0 <= i < mapped.len() implies !seq_contains(#[trigger] mapped[i], '\n') by {
        assert(mapped[i] == spec_emphasize(spec_words(s)[i]));
        lemma_emphasize_no_char(spec_words(s)[i], '\n');
    };
    lemma_join_no_char(mapped, '\n');
}

/// A single blank line between two paragraph lines yields exactly one hard
/// break between their formatted texts, whatever amount of whitespace the
/// blank line holds: neither formatted text holds a line feed of its own.
pub proof fn lemma_blank_line_collapsing(a: Seq<char>, blank: Seq<char>, b: Seq<char>)
    requires
        !seq_contains(a, '\n'),
        !seq_contains(blank, '\n'),
        !seq_contains(b, '\n'),
        spec_trim(blank).len() == 0,
        spec_trim(a).len() > 0,
        !spec_is_heading(spec_trim(a)),
        spec_trim(b).len() > 0,
        !spec_is_heading(spec_trim(b)),
    ensures
        spec_convert(a + seq!['\n'] + blank + seq!['\n'] + b) == spec_format(spec_trim(a))
            + hard_break() + spec_format(spec_trim(b)),
        !seq_contains(spec_format(spec_trim(a)), '\n'),
        !seq_contains(spec_format(spec_trim(b)), '\n'),
{
    lemma_trim_no_char(a, '\n');
    lemma_trim_no_char(b, '\n');
    lemma_format_no_newline(spec_trim(a));
    lemma_format_no_newline(spec_trim(b));
    let w = a + seq!['\n'] + blank + seq!['\n'] + b;
    let w2 = blank + seq!['\n'] + b;
    // the physical lines of the input are a, blank, and b
    assert(forall|k: int| 0 <= k < a.len() ==> w[k] == a[k]);
    assert(w[a.len() as int] == '\n');
    lemma_first_newline(w, a.len() as int);
    assert(w.subrange(0, a.len() as int) =~= a);
    assert(w.subrange(a.len() as int + 1, w.len() as int) =~= w2);
    assert(forall|k: int| 0 <= k < blank.len() ==> w2[k] == blank[k]);
    assert(w2[blank.len() as int] == '\n');
    lemma_first_newline(w2, blank.len() as int);
    assert(w2.subrange(0, blank.len() as int) =~= blank);
    assert(w2.subrange(blank.len() as int + 1, w2.len() as int) =~= b);
    lemma_first_newline(b, b.len() as int);
    assert(b.len() > 0);
    assert(split_lines(b) == seq![b]);
    assert(split_lines(w2) == seq![blank] + seq![b]);
    assert(w.len() > 0);
    assert(split_lines(w) == seq![a] + (seq![blank] + seq![b]));
    let lines = split_lines(w);
    assert(lines =~= seq![a, blank, b]);
    // the three assembler steps
    let fa = spec_format(spec_trim(a));
    let fb = spec_format(spec_trim(b));
    let s1 = spec_step(Seq::<char>::empty(), BlockMode::ParagraphOpen, a);
    assert(s1.0 =~= fa);
    let s2 = spec_step(fa, BlockMode::ParagraphOpen, blank);
    assert(s2.0 == fa + hard_break());
    assert(ends_with_break(fa + hard_break()));
    let s3 = spec_step(fa + hard_break(), BlockMode::ParagraphOpen, b);
    assert(s3.0 == (fa + hard_break()) + fb);
    // fold the assembler over the three lines
    assert(lines[0] == a);
    assert(lines.drop_first() =~= seq![blank, b]);
    assert(seq![blank, b][0] == blank);
    assert(seq![blank, b].drop_first() =~= seq![b]);
    assert(seq![b][0] == b);
    assert(seq![b].drop_first() =~= Seq::<Seq<char>>::empty());
    assert(s1.1 == BlockMode::ParagraphOpen);
    assert(s2.1 == BlockMode::ParagraphOpen);
    assert(spec_assemble(Seq::<char>::empty(), BlockMode::ParagraphOpen, lines) == spec_assemble(
        s1.0,
        s1.1,
        lines.drop_first(),
    ));
    assert(spec_assemble(s1.0, s1.1, lines.drop_first()) == spec_assemble(
        fa,
        BlockMode::ParagraphOpen,
        seq![blank, b],
    ));
    assert(spec_assemble(fa, BlockMode::ParagraphOpen, seq![blank, b]) == spec_assemble(
        s2.0,
        s2.1,
        seq![b],
    ));
    assert(spec_assemble(s2.0, s2.1, seq![b]) == spec_assemble(
        fa + hard_break(),
        BlockMode::ParagraphOpen,
        seq![b],
    ));
    assert(spec_assemble(fa + hard_break(), BlockMode::ParagraphOpen, seq![b]) == spec_assemble(
        s3.0,
        s3.1,
        Seq::<Seq<char>>::empty(),
    ));
    assert(spec_assemble(s3.0, s3.1, Seq::<Seq<char>>::empty()) == s3.0);
    assert(spec_convert(w) == (fa + hard_break()) + fb);
    assert((fa + hard_break()) + fb =~= fa + hard_break() + fb);
}

/// An enumeration-prefix match decides the heading depth by itself: a line
/// whose prefix opens with `1.`, `1.1` or `2.` resolves to the same depth
/// whatever its text says, so the short-all-caps rule never overrides a
/// prefix match.
pub proof fn lemma_prefix_decides_level(prefix: Seq<char>, t: Seq<char>, u: Seq<char>)
    requires
        starts_with(prefix, seq!['1', '.']) || starts_with(prefix, seq!['1', '.', '1'])
            || starts_with(prefix, seq!['2', '.']),
    ensures
        spec_heading_level(prefix, t) == spec_heading_level(prefix, u),
        starts_with(prefix, seq!['1', '.']) ==> spec_heading_level(prefix, t) == 1,
{
    if starts_with(prefix, seq!['1', '.', '1']) {
        assert(prefix.subrange(0, 2) =~= prefix.subrange(0, 3).subrange(0, 2));
        assert(seq!['1', '.', '1'].subrange(0, 2) =~= seq!['1', '.']);
        assert(starts_with(prefix, seq!['1', '.']));
    }
}

/// Emphasis is word-local: a line made of two whitespace-separated parts,
/// each holding at least one word, formats as each part formatted on its
/// own, joined with a single space.
pub proof fn lemma_emphasis_word_local(a: Seq<char>, b: Seq<char>)
    requires
        spec_words(a).len() > 0,
        spec_words(b).len() > 0,
    ensures
        spec_format(a + seq![' '] + b) == spec_format(a) + seq![' '] + spec_format(b),
{
    lemma_words_concat(a, b);
    let f = |w: Seq<char>| spec_emphasize(w);
    assert((spec_words(a) + spec_words(b)).map_values(f) =~= spec_words(a).map_values(f)
        + spec_words(b).map_values(f));
    lemma_join_concat(spec_words(a).map_values(f), spec_words(b).map_values(f));
}

} // verus!
