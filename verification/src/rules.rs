//! The character classes that drive the sanitizer.
//!
//! Each class is given as a spec predicate over a single character, together
//! with an executable twin proved equivalent to it.  The classes are exactly
//! those of the documented pipeline: Unicode whitespace, control characters,
//! the characters rewritten to underscore or to space, the separator-like
//! characters suppressed after whitespace, and the set trimmed from the ends
//! of every line.

use vstd::prelude::*;

verus! {

/// Start value for the carried "last emitted character" state.  An ordinary
/// letter, so that none of the "after last emitted" rules fires on the first
/// character of the input.
pub const LAST_EMITTED_START: char = 'A';

/// The zero-width space, dropped unconditionally wherever it occurs.
pub const ZERO_WIDTH_SPACE: char = '\u{200b}';

/// The code points carrying the Unicode `White_Space` property, which is the
/// class that `char::is_whitespace` tests.
pub open spec fn is_whitespace(c: char) -> bool {
    let u = c as u32;
    (0x09 <= u && u <= 0x0D) || u == 0x20 || u == 0x85 || u == 0xA0 || u == 0x1680 || (0x2000
        <= u && u <= 0x200A) || u == 0x2028 || u == 0x2029 || u == 0x202F || u == 0x205F || u
        == 0x3000
}

/// The Unicode control characters (category `Cc`), which is the class that
/// `char::is_control` tests: the C0 range, delete, and the C1 range.
pub open spec fn is_control(c: char) -> bool {
    let u = c as u32;
    u <= 0x1F || (0x7F <= u && u <= 0x9F)
}

/// Characters forbidden on common filesystems, rewritten to `_`.
pub open spec fn rewritten_to_underscore(c: char) -> bool {
    c == ':' || c == '\\' || c == '/' || c == '|' || c == '?' || c == '~'
}

/// Characters unsafe in URLs or filenames, rewritten to a space.
pub open spec fn rewritten_to_space(c: char) -> bool {
    c == '<' || c == '>' || c == '"' || c == '*' || c == '#' || c == '%' || c == '{' || c == '}'
        || c == '^' || c == '`'
}

/// Separator-like characters suppressed when the last emitted character was
/// whitespace.  This rule inspects the character before rewriting.
pub open spec fn suppressed_after_whitespace(c: char) -> bool {
    c == '_' || c == '.' || c == '\\' || c == '/' || c == ',' || c == ';'
}

/// Characters trimmed from both ends of every line and of the final result:
/// whitespace and `_ - . , ;`.
pub open spec fn is_trimmed(c: char) -> bool {
    is_whitespace(c) || c == '_' || c == '-' || c == '.' || c == ',' || c == ';'
}

/// Executable twin of [`is_whitespace`].
pub fn char_is_whitespace(c: char) -> (b: bool)
    ensures
        b == is_whitespace(c),
{
    let u: u32 = c as u32;
    (0x09 <= u && u <= 0x0D) || u == 0x20 || u == 0x85 || u == 0xA0 || u == 0x1680 || (0x2000
        <= u && u <= 0x200A) || u == 0x2028 || u == 0x2029 || u == 0x202F || u == 0x205F || u
        == 0x3000
}

/// Executable twin of [`is_control`].
pub fn char_is_control(c: char) -> (b: bool)
    ensures
        b == is_control(c),
{
    let u: u32 = c as u32;
    u <= 0x1F || (0x7F <= u && u <= 0x9F)
}

/// Executable twin of [`rewritten_to_underscore`].
pub fn char_rewritten_to_underscore(c: char) -> (b: bool)
    ensures
        b == rewritten_to_underscore(c),
{
    c == ':' || c == '\\' || c == '/' || c == '|' || c == '?' || c == '~'
}

/// Executable twin of [`rewritten_to_space`].
pub fn char_rewritten_to_space(c: char) -> (b: bool)
    ensures
        b == rewritten_to_space(c),
{
    c == '<' || c == '>' || c == '"' || c == '*' || c == '#' || c == '%' || c == '{' || c == '}'
        || c == '^' || c == '`'
}

/// Executable twin of [`suppressed_after_whitespace`].
pub fn char_suppressed_after_whitespace(c: char) -> (b: bool)
    ensures
        b == suppressed_after_whitespace(c),
{
    c == '_' || c == '.' || c == '\\' || c == '/' || c == ',' || c == ';'
}

/// Executable twin of [`is_trimmed`].
pub fn char_is_trimmed(c: char) -> (b: bool)
    ensures
        b == is_trimmed(c),
{
    char_is_whitespace(c) || c == '_' || c == '-' || c == '.' || c == ',' || c == ';'
}

} // verus!
