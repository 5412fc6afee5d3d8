//! The mathematical description of the sanitizing pipeline, as functions over
//! `Seq<char>`.
//!
//! [`spec_sanitize`] is the whole transformation: the input is split into
//! lines, every line is run through the per-character filter
//! ([`line_emits`]) while one `last emitted character` value is carried
//! across the whole input, every processed line is trimmed and closed with a
//! `-`, and the concatenation is trimmed once more.

use vstd::prelude::*;

use crate::rules::{
    is_control, is_trimmed, is_whitespace, rewritten_to_space, rewritten_to_underscore,
    suppressed_after_whitespace, LAST_EMITTED_START, ZERO_WIDTH_SPACE,
};

verus! {

/// Whitespace normalization: every whitespace character becomes a plain
/// space; every other character is unchanged.
pub open spec fn normalize_whitespace(c: char) -> char {
    if is_whitespace(c) {
        ' '
    } else {
        c
    }
}

/// The candidate that a (whitespace-normalized) character is rewritten to:
/// `_` for characters forbidden on filesystems, space for characters unsafe
/// in URLs, the character itself otherwise.
pub open spec fn candidate(c: char) -> char {
    if rewritten_to_underscore(c) {
        '_'
    } else if rewritten_to_space(c) {
        ' '
    } else {
        c
    }
}

/// Whether a (whitespace-normalized, non-control) character survives the
/// context-sensitive suppression, given the last emitted character:
/// repeated spaces and repeated underscores collapse, separator-like
/// characters vanish right after whitespace, and the zero-width space
/// vanishes everywhere.
pub open spec fn kept(c: char, last: char) -> bool {
    !(
    (candidate(c) == ' ' && last == ' ') || (candidate(c) == '_' && last == '_') || (
    suppressed_after_whitespace(c) && is_whitespace(last)) || c == ZERO_WIDTH_SPACE)
}

/// What one original character of a line adds to the output: nothing if it
/// is a (non-whitespace) control character or is suppressed, its candidate
/// otherwise.
pub open spec fn step_emits(c: char, last: char) -> Seq<char> {
    let n = normalize_whitespace(c);
    if is_control(n) {
        Seq::empty()
    } else if kept(n, last) {
        seq![candidate(n)]
    } else {
        Seq::empty()
    }
}

/// The last emitted character after one original character of a line has
/// been handled: it changes exactly when something is emitted.
pub open spec fn step_last(c: char, last: char) -> char {
    let n = normalize_whitespace(c);
    if is_control(n) {
        last
    } else if kept(n, last) {
        candidate(n)
    } else {
        last
    }
}

/// The characters that one line emits, processed left to right starting from
/// the given last emitted character.
pub open spec fn line_emits(cs: Seq<char>, last: char) -> Seq<char>
    decreases cs.len(),
{
    if cs.len() == 0 {
        Seq::empty()
    } else {
        step_emits(cs[0], last) + line_emits(cs.drop_first(), step_last(cs[0], last))
    }
}

/// The last emitted character after a whole line has been processed.
pub open spec fn line_last(cs: Seq<char>, last: char) -> char
    decreases cs.len(),
{
    if cs.len() == 0 {
        last
    } else {
        line_last(cs.drop_first(), step_last(cs[0], last))
    }
}

/// Removes every leading character of the trimmed class.
pub open spec fn trim_start(s: Seq<char>) -> Seq<char>
    decreases s.len(),
{
    if s.len() > 0 && is_trimmed(s[0]) {
        trim_start(s.drop_first())
    } else {
        s
    }
}

/// Removes every trailing character of the trimmed class.
pub open spec fn trim_end(s: Seq<char>) -> Seq<char>
    decreases s.len(),
{
    if s.len() > 0 && is_trimmed(s.last()) {
        trim_end(s.drop_last())
    } else {
        s
    }
}

/// Removes every leading and trailing character of the trimmed class.
pub open spec fn trim_both(s: Seq<char>) -> Seq<char> {
    trim_end(trim_start(s))
}

/// Prepends a partial first line to an already split rest.  An empty prefix
/// before no lines stays no lines; otherwise the prefix starts (or extends)
/// the first line.
pub open spec fn glue(prefix: Seq<char>, lines: Seq<Seq<char>>) -> Seq<Seq<char>> {
    if lines.len() == 0 {
        if prefix.len() == 0 {
            Seq::empty()
        } else {
            seq![prefix]
        }
    } else {
        seq![prefix + lines[0]] + lines.drop_first()
    }
}

/// Splits the input into lines the way `str::lines` does: a line ends at a
/// line feed or at a carriage return followed by a line feed, the terminator
/// belongs to no line, a lone carriage return stays in its line, and a final
/// terminator opens no further line.
pub open spec fn split_lines(s: Seq<char>) -> Seq<Seq<char>>
    decreases s.len(),
{
    if s.len() == 0 {
        Seq::empty()
    } else if s[0] == '\n' {
        seq![Seq::<char>::empty()] + split_lines(s.skip(1))
    } else if s[0] == '\r' && s.len() >= 2 && s[1] == '\n' {
        seq![Seq::<char>::empty()] + split_lines(s.skip(2))
    } else {
        glue(seq![s[0]], split_lines(s.skip(1)))
    }
}

/// Processes a sequence of lines: each line is filtered from the carried
/// last emitted character, trimmed at both ends, and closed with a `-`; the
/// results are concatenated.
pub open spec fn join_processed(lines: Seq<Seq<char>>, last: char) -> Seq<char>
    decreases lines.len(),
{
    if lines.len() == 0 {
        Seq::empty()
    } else {
        trim_both(line_emits(lines[0], last)) + seq!['-'] + join_processed(
            lines.drop_first(),
            line_last(lines[0], last),
        )
    }
}

/// The whole transformation.
pub open spec fn spec_sanitize(s: Seq<char>) -> Seq<char> {
    trim_both(join_processed(split_lines(s), LAST_EMITTED_START))
}

/// The views of a vector of lines.
pub open spec fn views_of(lines: Seq<Vec<char>>) -> Seq<Seq<char>> {
    lines.map_values(|l: Vec<char>| l@)
}

} // verus!
