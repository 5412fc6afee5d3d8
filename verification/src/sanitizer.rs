//! The executable sanitizer, verified against the model.

use vstd::prelude::*;
use vstd::std_specs::iter::IteratorSpec;

use crate::model::{
    candidate, glue, join_processed, kept, line_emits, line_last, normalize_whitespace,
    spec_sanitize, split_lines, step_emits, trim_both, trim_end, trim_start, views_of,
};
use crate::rules::{
    char_is_control, char_is_trimmed, char_is_whitespace, char_rewritten_to_space,
    char_rewritten_to_underscore, char_suppressed_after_whitespace, LAST_EMITTED_START,
    ZERO_WIDTH_SPACE,
};

verus! {

/// The characters of a string slice, in order.
fn collect_chars(s: &str) -> (v: Vec<char>)
    ensures
        v@ == s@,
{
    let mut v: Vec<char> = Vec::new();
    for c in it: s.chars()
        invariant
            it.seq() == s@,
            v@ == it.seq().take(it.index() as int),
    {
        v.push(c);
        proof {
            assert(v@ =~= it.seq().take(it.index() as int + 1));
        }
    }
    proof {
        assert(v@ =~= s@);
    }
    v
}

/// Relies on `String::push`: appends the given character to the end of the
/// string.
#[verifier::external_body]
fn push_char(s: &mut String, c: char)
    ensures
        final(s)@ == old(s)@.push(c),
{
    s.push(c);
}

/// A string holding exactly the given characters, in order.
fn chars_to_string(v: &Vec<char>) -> (s: String)
    ensures
        s@ == v@,
{
    let mut s = String::new();
    let mut i: usize = 0;
    while i < v.len()
        invariant
            i <= v.len(),
            s@ == v@.take(i as int),
        decreases v.len() - i,
    {
        push_char(&mut s, v[i]);
        proof {
            assert(s@ =~= v@.take(i as int + 1));
        }
        i = i + 1;
    }
    proof {
        assert(s@ =~= v@);
    }
    s
}

/// The characters of `v` from position `a` (inclusive) to `b` (exclusive).
fn copy_range(v: &Vec<char>, a: usize, b: usize) -> (r: Vec<char>)
    requires
        a <= b <= v@.len(),
    ensures
        r@ == v@.subrange(a as int, b as int),
{
    let mut r: Vec<char> = Vec::new();
    let mut i: usize = a;
    while i < b
        invariant
            a <= i <= b <= v@.len(),
            r@ == v@.subrange(a as int, i as int),
        decreases b - i,
    {
        r.push(v[i]);
        proof {
            assert(r@ =~= v@.subrange(a as int, i as int + 1));
        }
        i = i + 1;
    }
    r
}

/// The vector with every leading and trailing character of the trimmed class
/// removed.
fn trim_vec(v: &Vec<char>) -> (r: Vec<char>)
    ensures
        r@ == trim_both(v@),
{
    proof {
        assert(v@.skip(0) =~= v@);
    }
    let mut a: usize = 0;
    while a < v.len() && char_is_trimmed(v[a])
        invariant
            a <= v@.len(),
            trim_start(v@) == trim_start(v@.skip(a as int)),
        decreases v@.len() - a,
    {
        proof {
            assert(v@.skip(a as int).drop_first() =~= v@.skip(a as int + 1));
        }
        a = a + 1;
    }
    proof {
        assert(trim_start(v@) == v@.skip(a as int));
        assert(v@.skip(a as int) =~= v@.subrange(a as int, v@.len() as int));
    }
    let mut b: usize = v.len();
    while b > a && char_is_trimmed(v[b - 1])
        invariant
            a <= b <= v@.len(),
            trim_start(v@) == v@.skip(a as int),
            trim_end(v@.skip(a as int)) == trim_end(v@.subrange(a as int, b as int)),
        decreases b,
    {
        proof {
            assert(v@.subrange(a as int, b as int).drop_last() =~= v@.subrange(
                a as int,
                b as int - 1,
            ));
        }
        b = b - 1;
    }
    proof {
        assert(trim_end(v@.subrange(a as int, b as int)) == v@.subrange(a as int, b as int));
    }
    copy_range(v, a, b)
}

/// Runs one line through the per-character filter, starting from the given
/// last emitted character.  Returns the emitted characters and the last
/// emitted character after the line.
fn process_line(line: &Vec<char>, last0: char) -> (r: (Vec<char>, char))
    ensures
        r.0@ == line_emits(line@, last0),
        r.1 == line_last(line@, last0),
{
    let mut out: Vec<char> = Vec::new();
    let mut last: char = last0;
    let mut i: usize = 0;
    proof {
        assert(line@.skip(0) =~= line@);
    }
    while i < line.len()
        invariant
            i <= line@.len(),
            line_emits(line@, last0) == out@ + line_emits(line@.skip(i as int), last),
            line_last(line@, last0) == line_last(line@.skip(i as int), last),
        decreases line@.len() - i,
    {
        let c = line[i];
        proof {
            assert(line@.skip(i as int)[0] == c);
            assert(line@.skip(i as int).drop_first() =~= line@.skip(i as int + 1));
        }
        let n: char = if char_is_whitespace(c) {
            ' '
        } else {
            c
        };
        assert(n == normalize_whitespace(c));
        if !char_is_control(n) {
            let cand: char = if char_rewritten_to_underscore(n) {
                '_'
            } else if char_rewritten_to_space(n) {
                ' '
            } else {
                n
            };
            assert(cand == candidate(n));
            let discard = (cand == ' ' && last == ' ') || (cand == '_' && last == '_') || (
            char_suppressed_after_whitespace(n) && char_is_whitespace(last)) || n
                == ZERO_WIDTH_SPACE;
            assert(discard == !kept(n, last));
            if !discard {
                let ghost emitted = out@;
                out.push(cand);
                proof {
                    assert(out@ =~= emitted + step_emits(line@[i as int], last));
                }
                last = cand;
            } else {
                proof {
                    assert(out@ =~= out@ + step_emits(line@[i as int], last));
                }
            }
        } else {
            proof {
                assert(out@ =~= out@ + step_emits(line@[i as int], last));
            }
        }
        i = i + 1;
    }
    proof {
        assert(line_emits(line@, last0) =~= out@);
    }
    (out, last)
}

/// Splits the character sequence into lines, the way `str::lines` splits a
/// string.
fn split_into_lines(v: &Vec<char>) -> (lines: Vec<Vec<char>>)
    ensures
        views_of(lines@) == split_lines(v@),
{
    let mut lines: Vec<Vec<char>> = Vec::new();
    let mut cur: Vec<char> = Vec::new();
    let mut i: usize = 0;
    proof {
        assert(v@.skip(0) =~= v@);
        assert(views_of(lines@) + glue(cur@, split_lines(v@)) =~= split_lines(v@)) by {
            lemma_glue_empty_prefix(split_lines(v@));
        }
    }
    while i < v.len()
        invariant
            i <= v@.len(),
            cur@.len() <= i,
            split_lines(v@) == views_of(lines@) + glue(cur@, split_lines(v@.skip(i as int))),
        decreases v@.len() - i,
    {
        let c = v[i];
        proof {
            assert(v@.skip(i as int)[0] == c);
            assert(v@.skip(i as int).skip(1) =~= v@.skip(i as int + 1));
        }
        if c == '\n' {
            proof {
                lemma_glue_line_end(cur@, split_lines(v@.skip(i as int + 1)));
                assert(views_of(lines@.push(cur)) =~= views_of(lines@).push(cur@));
                assert(views_of(lines@).push(cur@) + glue(
                    Seq::<char>::empty(),
                    split_lines(v@.skip(i as int + 1)),
                ) =~= views_of(lines@) + glue(cur@, split_lines(v@.skip(i as int))));
            }
            lines.push(cur);
            cur = Vec::new();
            i = i + 1;
        } else if c == '\r' && i + 1 < v.len() && v[i + 1] == '\n' {
            proof {
                assert(v@.skip(i as int).skip(2) =~= v@.skip(i as int + 2));
                lemma_glue_line_end(cur@, split_lines(v@.skip(i as int + 2)));
                assert(views_of(lines@.push(cur)) =~= views_of(lines@).push(cur@));
                assert(views_of(lines@).push(cur@) + glue(
                    Seq::<char>::empty(),
                    split_lines(v@.skip(i as int + 2)),
                ) =~= views_of(lines@) + glue(cur@, split_lines(v@.skip(i as int))));
            }
            lines.push(cur);
            cur = Vec::new();
            i = i + 2;
        } else {
            proof {
                lemma_glue_extend(cur@, c, split_lines(v@.skip(i as int + 1)));
            }
            cur.push(c);
            i = i + 1;
        }
    }
    if cur.len() > 0 {
        proof {
            assert(views_of(lines@.push(cur)) =~= views_of(lines@).push(cur@));
            assert(views_of(lines@).push(cur@) =~= views_of(lines@) + glue(
                cur@,
                split_lines(v@.skip(v@.len() as int)),
            ));
        }
        lines.push(cur);
    }
    proof {
        assert(views_of(lines@) =~= split_lines(v@));
    }
    lines
}

/// Processes every line from the carried last emitted character, trims it,
/// closes it with a `-`, and concatenates the results.
fn join_lines(lines: &Vec<Vec<char>>) -> (out: Vec<char>)
    ensures
        out@ == join_processed(views_of(lines@), LAST_EMITTED_START),
{
    let mut out: Vec<char> = Vec::new();
    let mut last: char = LAST_EMITTED_START;
    let mut li: usize = 0;
    proof {
        assert(views_of(lines@).skip(0) =~= views_of(lines@));
    }
    while li < lines.len()
        invariant
            li <= lines@.len(),
            join_processed(views_of(lines@), LAST_EMITTED_START) == out@ + join_processed(
                views_of(lines@).skip(li as int),
                last,
            ),
        decreases lines@.len() - li,
    {
        proof {
            assert(views_of(lines@).skip(li as int)[0] == lines@[li as int]@);
            assert(views_of(lines@).skip(li as int).drop_first() =~= views_of(lines@).skip(
                li as int + 1,
            ));
        }
        let (emitted, new_last) = process_line(&lines[li], last);
        let mut trimmed = trim_vec(&emitted);
        let ghost done = out@;
        out.append(&mut trimmed);
        out.push('-');
        proof {
            assert(out@ =~= done + (trim_both(line_emits(lines@[li as int]@, last)) + seq!['-']));
        }
        last = new_last;
        li = li + 1;
    }
    proof {
        assert(out@ =~= join_processed(views_of(lines@), LAST_EMITTED_START));
    }
    out
}

/// Converts a string into a file-system-friendly and human-readable form.
///
/// The result is exactly the model's transformation of the input: lines are
/// split off, every character is whitespace-normalized, control-filtered,
/// rewritten and possibly suppressed based on the last emitted character,
/// every line is trimmed and closed with a `-`, and the concatenation is
/// trimmed once more.  The function is total: every input, the empty string
/// included, yields a result.
pub fn sanitize(s: &str) -> (out: String)
    ensures
        out@ == spec_sanitize(s@),
{
    let chars = collect_chars(s);
    let lines = split_into_lines(&chars);
    let joined = join_lines(&lines);
    let trimmed = trim_vec(&joined);
    chars_to_string(&trimmed)
}

/// An empty prefix glued to already split lines leaves them unchanged.
proof fn lemma_glue_empty_prefix(lines: Seq<Seq<char>>)
    ensures
        glue(Seq::<char>::empty(), lines) == lines,
{
    if lines.len() == 0 {
        assert(glue(Seq::<char>::empty(), lines) =~= lines);
    } else {
        assert(Seq::<char>::empty() + lines[0] =~= lines[0]);
        assert(glue(Seq::<char>::empty(), lines) =~= lines);
    }
}

/// Extending the pending prefix by one character commutes with gluing.
proof fn lemma_glue_extend(prefix: Seq<char>, c: char, lines: Seq<Seq<char>>)
    ensures
        glue(prefix, glue(seq![c], lines)) == glue(prefix.push(c), lines),
{
    if lines.len() == 0 {
        assert(prefix + seq![c] =~= prefix.push(c));
        assert(glue(prefix, glue(seq![c], lines)) =~= glue(prefix.push(c), lines));
    } else {
        assert((seq![c] + lines[0]).drop_first() =~= lines[0]);
        assert(prefix + (seq![c] + lines[0]) =~= prefix.push(c) + lines[0]);
        assert(glue(prefix, glue(seq![c], lines)) =~= glue(prefix.push(c), lines));
    }
}

/// Closing the pending prefix at a line terminator turns it into a whole
/// line before the rest.
proof fn lemma_glue_line_end(prefix: Seq<char>, lines: Seq<Seq<char>>)
    ensures
        glue(prefix, seq![Seq::<char>::empty()] + lines) == seq![prefix] + glue(
            Seq::<char>::empty(),
            lines,
        ),
{
    lemma_glue_empty_prefix(lines);
    assert(prefix + Seq::<char>::empty() =~= prefix);
    assert((seq![Seq::<char>::empty()] + lines).drop_first() =~= lines);
    assert(glue(prefix, seq![Seq::<char>::empty()] + lines) =~= seq![prefix] + glue(
        Seq::<char>::empty(),
        lines,
    ));
}

} // verus!
