//! The block assembler: the driving loop that walks the physical lines in
//! order, classifies each, and accumulates the final Markdown string.

use vstd::prelude::*;

use crate::classify::heading_chars;
use crate::classify::heading_level_chars;
use crate::classify::marker_chars;
use crate::classify::spec_body;
use crate::classify::spec_heading_level;
use crate::classify::spec_is_heading;
use crate::classify::spec_prefix;
use crate::emphasis::format_chars;
use crate::emphasis::spec_format;
use crate::hard_break;
use crate::text::chars_vec;
use crate::text::extend_chars;
use crate::text::lemma_first_newline;
use crate::text::spec_trim;
use crate::text::split_lines;
use crate::text::string_of;
use crate::text::trim_chars;

verus! {

/// The assembler's mode: whether the next paragraph line continues an open
/// paragraph or opens a fresh one right after a heading.
pub enum BlockMode {
    ParagraphOpen,
    HeadingClosed,
}

/// `depth` heading markers.
pub open spec fn hashes(depth: int) -> Seq<char> {
    Seq::new(depth as nat, |i: int| '#')
}

/// Whether the accumulator already ends with a hard break.
pub open spec fn ends_with_break(acc: Seq<char>) -> bool {
    acc.len() >= 2 && acc[acc.len() - 2] == '\n' && acc[acc.len() - 1] == '\n'
}

/// One step of the assembler: what one physical line adds to the
/// accumulator, and the mode it leaves behind.
pub open spec fn spec_step(acc: Seq<char>, mode: BlockMode, raw: Seq<char>) -> (Seq<char>, BlockMode) {
    let t = spec_trim(raw);
    if t.len() == 0 {
        (acc + hard_break(), mode)
    } else if spec_is_heading(t) {
        (
            acc + hashes(spec_heading_level(spec_prefix(t), t)) + seq![' '] + spec_body(t)
                + hard_break(),
            BlockMode::HeadingClosed,
        )
    } else {
        let f = spec_format(t);
        match mode {
            BlockMode::ParagraphOpen => if acc.len() > 0 && !ends_with_break(acc) {
                (acc + seq![' '] + f, BlockMode::ParagraphOpen)
            } else {
                (acc + f, BlockMode::ParagraphOpen)
            },
            BlockMode::HeadingClosed => (acc + f + hard_break(), BlockMode::ParagraphOpen),
        }
    }
}

/// The assembler folded over a sequence of physical lines.
pub open spec fn spec_assemble(acc: Seq<char>, mode: BlockMode, lines: Seq<Seq<char>>) -> Seq<char>
    decreases lines.len(),
{
    if lines.len() == 0 {
        acc
    } else {
        spec_assemble(
            spec_step(acc, mode, lines[0]).0,
            spec_step(acc, mode, lines[0]).1,
            lines.drop_first(),
        )
    }
}

/// The whole conversion: the assembler run over the text's physical lines,
/// from an empty accumulator in paragraph mode.
pub open spec fn spec_convert(text: Seq<char>) -> Seq<char> {
    spec_assemble(Seq::empty(), BlockMode::ParagraphOpen, split_lines(text))
}

/// Append one line's contribution to the accumulator and update the mode.
fn step_chars(acc: &mut Vec<char>, mode: &mut BlockMode, line: &Vec<char>)
    ensures
        final(acc)@ == spec_step(old(acc)@, *old(mode), line@).0,
        *final(mode) == spec_step(old(acc)@, *old(mode), line@).1,
{
    let t = trim_chars(line);
    if t.len() == 0 {
        acc.push('\n');
        acc.push('\n');
        proof {
            assert(acc@ =~= old(acc)@ + hard_break());
        }
        return ;
    }
    let heading = heading_chars(&t);
    if heading {
        let (prefix, body) = marker_chars(&t);
        let depth = heading_level_chars(&prefix, &t);
        let ghost mid = acc@;
        let mut z: usize = 0;
        while z < depth
            invariant
                z <= depth,
                acc@ == mid + hashes(z as int),
            decreases depth - z,
        {
            acc.push('#');
            proof {
                assert(mid + hashes(z + 1 as int) =~= (mid + hashes(z as int)).push('#'));
            }
            z = z + 1;
        }
        acc.push(' ');
        extend_chars(acc, &body);
        acc.push('\n');
        acc.push('\n');
        *mode = BlockMode::HeadingClosed;
        proof {
            assert(acc@ =~= old(acc)@ + hashes(depth as int) + seq![' '] + spec_body(t@)
                + hard_break());
        }
        return ;
    }
    let f = format_chars(&t);
    match *mode {
        BlockMode::ParagraphOpen => {
            let fits = acc.len() > 0 && !(acc.len() >= 2 && acc[acc.len() - 2] == '\n' && acc[acc.len()
                - 1] == '\n');
            proof {
                assert(fits == (old(acc)@.len() > 0 && !ends_with_break(old(acc)@)));
            }
            if fits {
                acc.push(' ');
            }
            extend_chars(acc, &f);
            proof {
                if fits {
                    assert(acc@ =~= old(acc)@ + seq![' '] + spec_format(t@));
                }
            }
        },
        BlockMode::HeadingClosed => {
            extend_chars(acc, &f);
            acc.push('\n');
            acc.push('\n');
            *mode = BlockMode::ParagraphOpen;
            proof {
                assert(acc@ =~= old(acc)@ + spec_format(t@) + hard_break());
            }
        },
    }
}

/// Converts raw extracted text into Markdown: walks the physical lines in
/// order, renders each heading as `#` markers and its body followed by a
/// hard break, joins continued paragraph lines with single spaces, and turns
/// every blank line into a hard break.
pub fn convert_to_markdown(content: &str) -> (r: String)
    ensures
        r@ == spec_convert(content@),
{
    let cs = chars_vec(content);
    let n = cs.len();
    let mut acc: Vec<char> = Vec::new();
    let mut mode = BlockMode::ParagraphOpen;
    let mut i: usize = 0;
    proof {
        assert(cs@.subrange(0, n as int) =~= cs@);
    }
    while i < n
        invariant
            n == cs@.len(),
            i <= n,
            spec_convert(cs@) == spec_assemble(acc@, mode, split_lines(cs@.subrange(i as int, n as int))),
        decreases n - i,
    {
        // the line spans [i, j)
        let mut j: usize = i;
        while j < n && cs[j] != '\n'
            invariant
                n == cs@.len(),
                i <= j <= n,
                forall|k: int| i <= k < j ==> cs@[k] != '\n',
            decreases n - j,
        {
            j = j + 1;
        }
        let mut line: Vec<char> = Vec::new();
        let mut m: usize = i;
        while m < j
            invariant
                i <= m <= j <= n == cs@.len(),
                line@ == cs@.subrange(i as int, m as int),
            decreases j - m,
        {
            line.push(cs[m]);
            proof {
                assert(cs@.subrange(i as int, m + 1 as int) =~= cs@.subrange(i as int, m as int).push(
                    cs@[m as int],
                ));
            }
            m = m + 1;
        }
        proof {
            let rest = cs@.subrange(i as int, n as int);
            assert(forall|k: int| 0 <= k < j - i ==> rest[k] == cs@[i + k]);
            lemma_first_newline(rest, j - i);
            assert(rest.subrange(0, j - i) =~= line@);
            if j < n {
                assert(rest.subrange(j - i + 1, rest.len() as int) =~= cs@.subrange(
                    j + 1 as int,
                    n as int,
                ));
                let lines = split_lines(rest);
                assert(lines == seq![line@] + split_lines(cs@.subrange(j + 1 as int, n as int)));
                assert(lines[0] == line@);
                assert(lines.drop_first() =~= split_lines(cs@.subrange(j + 1 as int, n as int)));
            } else {
                assert(rest =~= line@);
                let lines = split_lines(rest);
                assert(lines == seq![line@]);
                assert(lines[0] == line@);
                assert(lines.drop_first() =~= split_lines(cs@.subrange(n as int, n as int)));
                assert(cs@.subrange(n as int, n as int) =~= Seq::<char>::empty());
            }
        }
        step_chars(&mut acc, &mut mode, &line);
        if j < n {
            i = j + 1;
        } else {
            i = j;
        }
    }
    proof {
        assert(cs@.subrange(n as int, n as int) =~= Seq::<char>::empty());
    }
    string_of(&acc)
}

} // verus!
