//! Infers Markdown structure (headings, paragraphs, emphasized words) from
//! plain extracted document text, using character-level heuristics alone.

use vstd::prelude::*;

pub mod assemble;
pub mod chars;
pub mod classify;
pub mod emphasis;
pub mod laws;
pub mod text;

pub use assemble::convert_to_markdown;
pub use classify::determine_heading_level;
pub use classify::is_likely_heading;
pub use classify::split_marker;
pub use emphasis::detect_and_format;

verus! {

/// A run of two newlines: the hard break that separates Markdown blocks.
pub open spec fn hard_break() -> Seq<char> {
    seq!['\n', '\n']
}

} // verus!
