//! Properties proved of the sanitizer, stated over the model.

use vstd::prelude::*;

use crate::model::{
    candidate, glue, join_processed, kept, line_emits, line_last, normalize_whitespace,
    spec_sanitize, split_lines, step_emits, step_last, trim_both, trim_end, trim_start,
};
use crate::rules::{
    is_control, is_trimmed, is_whitespace, rewritten_to_space, rewritten_to_underscore,
    suppressed_after_whitespace, LAST_EMITTED_START, ZERO_WIDTH_SPACE,
};

verus! {

/// The characters that the sanitizer is meant to eliminate: those rewritten
/// to underscore or to space, and the zero-width space.
pub open spec fn is_forbidden(c: char) -> bool {
    rewritten_to_underscore(c) || rewritten_to_space(c) || c == ZERO_WIDTH_SPACE
}

/// No character of the sequence is forbidden.
pub open spec fn no_forbidden(s: Seq<char>) -> bool {
    forall|i: int| 0 <= i < s.len() ==> !is_forbidden(s[i])
}

/// The character `c` never occurs twice in a row.
pub open spec fn no_repeated(s: Seq<char>, c: char) -> bool {
    forall|i: int| #![trigger s[i]] 0 <= i && i + 1 < s.len() ==> !(s[i] == c && s[i + 1] == c)
}

/// The class of characters that the filter can emit at all: not forbidden,
/// not a control character, and no whitespace other than the plain space.
spec fn emitted_class(c: char) -> bool {
    !is_forbidden(c) && !is_control(c) && (is_whitespace(c) ==> c == ' ')
}

/// Every character of the sequence is of the emitted class.
spec fn all_emitted_class(s: Seq<char>) -> bool {
    forall|i: int| 0 <= i < s.len() ==> emitted_class(s[i])
}

/// What trimming the start leaves: a sequence no longer than the input; if
/// anything is left, its first character is not of the trimmed class and its
/// last character is the input's last.
proof fn lemma_trim_start(s: Seq<char>)
    ensures
        trim_start(s).len() <= s.len(),
        trim_start(s).len() > 0 ==> !is_trimmed(trim_start(s)[0]),
        trim_start(s).len() > 0 ==> s.len() > 0 && trim_start(s).last() == s.last(),
    decreases s.len(),
{
    if s.len() > 0 && is_trimmed(s[0]) {
        lemma_trim_start(s.drop_first());
    }
}

/// What trimming the end leaves: a sequence no longer than the input; if
/// anything is left, its last character is not of the trimmed class and its
/// first character is the input's first.
proof fn lemma_trim_end(s: Seq<char>)
    ensures
        trim_end(s).len() <= s.len(),
        trim_end(s).len() > 0 ==> !is_trimmed(trim_end(s).last()),
        trim_end(s).len() > 0 ==> s.len() > 0 && trim_end(s)[0] == s[0],
    decreases s.len(),
{
    if s.len() > 0 && is_trimmed(s.last()) {
        lemma_trim_end(s.drop_last());
    }
}

/// What trimming both ends leaves: a sequence no longer than the input
/// whose edges, if any, are not of the trimmed class.
proof fn lemma_trim_both(s: Seq<char>)
    ensures
        trim_both(s).len() <= s.len(),
        trim_both(s).len() > 0 ==> !is_trimmed(trim_both(s)[0]) && !is_trimmed(trim_both(s).last()),
{
    lemma_trim_start(s);
    lemma_trim_end(trim_start(s));
}

/// Trimming a sequence that ends in a trimmed character makes it strictly
/// shorter.
proof fn lemma_trim_both_shrinks(s: Seq<char>)
    requires
        s.len() > 0,
        is_trimmed(s.last()),
    ensures
        trim_both(s).len() < s.len(),
{
    lemma_trim_start(s);
    lemma_trim_end(trim_start(s));
    if trim_start(s).len() > 0 {
        assert(trim_end(trim_start(s)) == trim_end(trim_start(s).drop_last()));
        lemma_trim_end(trim_start(s).drop_last());
    }
}

/// The emitted characters contain no doubled space and no doubled
/// underscore, also counting the last emitted character before them.
spec fn chain_ok(last: char, s: Seq<char>) -> bool {
    no_repeated(s, ' ') && no_repeated(s, '_') && (s.len() > 0 ==> !(last == ' ' && s[0] == ' ')
        && !(last == '_' && s[0] == '_'))
}

/// What one line emits is all of the emitted class and, measured from the
/// carried last emitted character, free of doubled spaces and doubled
/// underscores.
proof fn lemma_line_emits_clean(cs: Seq<char>, last: char)
    ensures
        all_emitted_class(line_emits(cs, last)),
        chain_ok(last, line_emits(cs, last)),
    decreases cs.len(),
{
    if cs.len() > 0 {
        let next = step_last(cs[0], last);
        let rest = line_emits(cs.drop_first(), next);
        lemma_line_emits_clean(cs.drop_first(), next);
        let head = step_emits(cs[0], last);
        let out = line_emits(cs, last);
        assert(out == head + rest);
        if head.len() > 0 {
            let c = head[0];
            assert(out[0] == c);
            assert(forall|i: int| 1 <= i < out.len() ==> out[i] == rest[i - 1]);
            assert(next == c);
            assert(emitted_class(c));
            assert forall|i: int| #![trigger out[i]] 0 <= i && i + 1 < out.len() implies !(out[i]
                == ' ' && out[i + 1] == ' ') && !(out[i] == '_' && out[i + 1] == '_') by {
                if i == 0 {
                    if rest.len() > 0 {
                        assert(rest[0] == out[1]);
                    }
                } else {
                    assert(rest[i - 1] == out[i] && rest[i] == out[i + 1]);
                }
            }
        } else {
            assert(out =~= rest);
        }
    }
}

/// Both cleanliness predicates survive the removal of the first character.
proof fn lemma_clean_drop_first(s: Seq<char>, c: char)
    requires
        s.len() > 0,
    ensures
        all_emitted_class(s) ==> all_emitted_class(s.drop_first()),
        no_repeated(s, c) ==> no_repeated(s.drop_first(), c),
{
    let t = s.drop_first();
    if all_emitted_class(s) {
        assert forall|i: int| 0 <= i < t.len() implies emitted_class(t[i]) by {
            assert(t[i] == s[i + 1]);
        }
    }
    if no_repeated(s, c) {
        assert forall|i: int| #![trigger t[i]] 0 <= i && i + 1 < t.len() implies !(t[i] == c && t[i
            + 1] == c) by {
            assert(t[i] == s[i + 1] && t[i + 1] == s[i + 2]);
        }
    }
}

/// Both cleanliness predicates survive the removal of the last character.
proof fn lemma_clean_drop_last(s: Seq<char>, c: char)
    requires
        s.len() > 0,
    ensures
        all_emitted_class(s) ==> all_emitted_class(s.drop_last()),
        no_repeated(s, c) ==> no_repeated(s.drop_last(), c),
{
    let t = s.drop_last();
    assert(forall|i: int| 0 <= i < t.len() ==> t[i] == s[i]);
}

/// Both cleanliness predicates survive trimming.
proof fn lemma_trim_preserves_clean(s: Seq<char>)
    requires
        all_emitted_class(s),
        no_repeated(s, ' '),
        no_repeated(s, '_'),
    ensures
        all_emitted_class(trim_both(s)),
        no_repeated(trim_both(s), ' '),
        no_repeated(trim_both(s), '_'),
{
    lemma_trim_start_preserves_clean(s);
    lemma_trim_end_preserves_clean(trim_start(s));
}

/// Both cleanliness predicates survive trimming the start.
proof fn lemma_trim_start_preserves_clean(s: Seq<char>)
    requires
        all_emitted_class(s),
        no_repeated(s, ' '),
        no_repeated(s, '_'),
    ensures
        all_emitted_class(trim_start(s)),
        no_repeated(trim_start(s), ' '),
        no_repeated(trim_start(s), '_'),
    decreases s.len(),
{
    if s.len() > 0 && is_trimmed(s[0]) {
        lemma_clean_drop_first(s, ' ');
        lemma_clean_drop_first(s, '_');
        lemma_trim_start_preserves_clean(s.drop_first());
    }
}

/// Both cleanliness predicates survive trimming the end.
proof fn lemma_trim_end_preserves_clean(s: Seq<char>)
    requires
        all_emitted_class(s),
        no_repeated(s, ' '),
        no_repeated(s, '_'),
    ensures
        all_emitted_class(trim_end(s)),
        no_repeated(trim_end(s), ' '),
        no_repeated(trim_end(s), '_'),
    decreases s.len(),
{
    if s.len() > 0 && is_trimmed(s.last()) {
        lemma_clean_drop_last(s, ' ');
        lemma_clean_drop_last(s, '_');
        lemma_trim_end_preserves_clean(s.drop_last());
    }
}

/// The joined lines are clean: every line's emission is clean, trimming
/// keeps it so, and the `-` closing each line can double with nothing.
proof fn lemma_join_clean(lines: Seq<Seq<char>>, last: char)
    ensures
        all_emitted_class(join_processed(lines, last)),
        no_repeated(join_processed(lines, last), ' '),
        no_repeated(join_processed(lines, last), '_'),
    decreases lines.len(),
{
    if lines.len() > 0 {
        let head0 = line_emits(lines[0], last);
        let head = trim_both(head0);
        let rest = join_processed(lines.drop_first(), line_last(lines[0], last));
        let out = join_processed(lines, last);
        lemma_line_emits_clean(lines[0], last);
        lemma_trim_preserves_clean(head0);
        lemma_join_clean(lines.drop_first(), line_last(lines[0], last));
        assert(out == head + seq!['-'] + rest);
        let h = head.len() as int;
        assert(forall|i: int| 0 <= i < h ==> out[i] == head[i]);
        assert(out[h] == '-');
        assert(forall|i: int| h < i < out.len() ==> out[i] == rest[i - h - 1]);
        assert(emitted_class('-'));
        assert(forall|i: int| 0 <= i < out.len() ==> emitted_class(out[i]));
        assert forall|i: int, c: char|
            #![trigger out[i], spec_space_or_underscore(c)]
            (c == ' ' || c == '_') && 0 <= i && i + 1 < out.len() implies !(out[i] == c && out[i
            + 1] == c) by {
            if i + 1 < h {
                assert(out[i] == head[i] && out[i + 1] == head[i + 1]);
            } else if i < h {
                assert(out[i + 1] == '-');
            } else if i == h {
                assert(out[i] == '-');
            } else {
                assert(out[i] == rest[i - h - 1] && out[i + 1] == rest[i - h]);
            }
        }
    }
}

/// A marker predicate used only to shape the quantifier above.
spec fn spec_space_or_underscore(c: char) -> bool {
    c == ' ' || c == '_'
}

/// Every character of the result is of the emitted class, and neither a
/// space nor an underscore is ever doubled.
proof fn lemma_output_profile(s: Seq<char>)
    ensures
        all_emitted_class(spec_sanitize(s)),
        no_repeated(spec_sanitize(s), ' '),
        no_repeated(spec_sanitize(s), '_'),
{
    let joined = join_processed(split_lines(s), LAST_EMITTED_START);
    lemma_join_clean(split_lines(s), LAST_EMITTED_START);
    lemma_trim_preserves_clean(joined);
}

/// No residual forbidden characters: the result contains none of the
/// rewritten characters nor the zero-width space, and neither two plain
/// spaces nor two underscores in a row.
pub proof fn lemma_output_clean(s: Seq<char>)
    ensures
        no_forbidden(spec_sanitize(s)),
        no_repeated(spec_sanitize(s), ' '),
        no_repeated(spec_sanitize(s), '_'),
{
    lemma_output_profile(s);
}

/// No leading or trailing junk: a nonempty result never starts or ends with
/// whitespace or one of `_ - . , ;`.
pub proof fn lemma_output_edges(s: Seq<char>)
    ensures
        spec_sanitize(s).len() > 0 ==> !is_trimmed(spec_sanitize(s)[0]) && !is_trimmed(
            spec_sanitize(s).last(),
        ),
{
    lemma_trim_both(join_processed(split_lines(s), LAST_EMITTED_START));
}

/// The combined length of a sequence of lines.
spec fn total_len(lines: Seq<Seq<char>>) -> nat
    decreases lines.len(),
{
    if lines.len() == 0 {
        0
    } else {
        lines[0].len() + total_len(lines.drop_first())
    }
}

/// A line emits at most as many characters as it holds: every character is
/// dropped or rewritten one for one.
proof fn lemma_line_emits_len(cs: Seq<char>, last: char)
    ensures
        line_emits(cs, last).len() <= cs.len(),
    decreases cs.len(),
{
    if cs.len() > 0 {
        lemma_line_emits_len(cs.drop_first(), step_last(cs[0], last));
    }
}

/// The joined lines hold at most the lines' characters plus one closing `-`
/// per line.
proof fn lemma_join_len(lines: Seq<Seq<char>>, last: char)
    ensures
        join_processed(lines, last).len() <= total_len(lines) + lines.len(),
    decreases lines.len(),
{
    if lines.len() > 0 {
        lemma_line_emits_len(lines[0], last);
        lemma_trim_both(line_emits(lines[0], last));
        lemma_join_len(lines.drop_first(), line_last(lines[0], last));
    }
}

/// The joined lines of a nonempty input end with the closing `-` of the
/// last line.
proof fn lemma_join_ends_with_dash(lines: Seq<Seq<char>>, last: char)
    requires
        lines.len() > 0,
    ensures
        join_processed(lines, last).len() > 0,
        join_processed(lines, last).last() == '-',
    decreases lines.len(),
{
    let head = trim_both(line_emits(lines[0], last));
    let rest = join_processed(lines.drop_first(), line_last(lines[0], last));
    let out = join_processed(lines, last);
    assert(out == head + seq!['-'] + rest);
    if lines.drop_first().len() > 0 {
        lemma_join_ends_with_dash(lines.drop_first(), line_last(lines[0], last));
        assert(out.last() == rest.last());
    } else {
        assert(rest.len() == 0);
        assert(out.last() == (head + seq!['-'])[head.len() as int]);
    }
}

/// Splitting a nonempty input yields at least one line.
proof fn lemma_split_nonempty(s: Seq<char>)
    requires
        s.len() > 0,
    ensures
        split_lines(s).len() > 0,
{
}

/// The split lines' characters, plus one for each line, stay within the
/// input's length plus one: every line but possibly the last consumed at
/// least one terminator character of the input.
proof fn lemma_split_budget(s: Seq<char>)
    ensures
        total_len(split_lines(s)) + split_lines(s).len() <= s.len() + 1,
    decreases s.len(),
{
    if s.len() == 0 {
    } else if s[0] == '\n' {
        lemma_split_budget(s.skip(1));
        let rest = split_lines(s.skip(1));
        assert((seq![Seq::<char>::empty()] + rest).drop_first() =~= rest);
    } else if s[0] == '\r' && s.len() >= 2 && s[1] == '\n' {
        lemma_split_budget(s.skip(2));
        let rest = split_lines(s.skip(2));
        assert((seq![Seq::<char>::empty()] + rest).drop_first() =~= rest);
    } else {
        lemma_split_budget(s.skip(1));
        let rest = split_lines(s.skip(1));
        if rest.len() == 0 {
            assert(total_len(split_lines(s)) == seq![s[0]].len() + total_len(
                split_lines(s).drop_first(),
            ));
            assert(split_lines(s).drop_first() =~= Seq::<Seq<char>>::empty());
        } else {
            assert(split_lines(s) == seq![seq![s[0]] + rest[0]] + rest.drop_first());
            assert(split_lines(s).drop_first() =~= rest.drop_first());
            assert(total_len(split_lines(s)) == 1 + rest[0].len() + total_len(rest.drop_first()));
            assert(total_len(rest) == rest[0].len() + total_len(rest.drop_first()));
        }
    }
}

/// Length non-increase: the result is never longer than the input.  Every
/// filter deletes or substitutes one for one; the `-` closing each line
/// stands for at least one removed terminator character, except the one
/// closing the last line, which the final trim removes.
pub proof fn lemma_length_non_increase(s: Seq<char>)
    ensures
        spec_sanitize(s).len() <= s.len(),
{
    let lines = split_lines(s);
    let joined = join_processed(lines, LAST_EMITTED_START);
    lemma_split_budget(s);
    lemma_join_len(lines, LAST_EMITTED_START);
    if s.len() == 0 {
        lemma_trim_both(joined);
    } else {
        lemma_split_nonempty(s);
        lemma_join_ends_with_dash(lines, LAST_EMITTED_START);
        lemma_trim_both_shrinks(joined);
    }
}

/// A sequence free of line feeds and carriage returns.
pub open spec fn terminator_free(s: Seq<char>) -> bool {
    forall|i: int| 0 <= i < s.len() ==> s[i] != '\n' && s[i] != '\r'
}

/// A nonempty terminator-free input is a single line.
proof fn lemma_split_single_line(s: Seq<char>)
    requires
        s.len() > 0,
        terminator_free(s),
    ensures
        split_lines(s) == seq![s],
    decreases s.len(),
{
    let rest = s.skip(1);
    assert(forall|i: int| 0 <= i < rest.len() ==> rest[i] == s[i + 1]);
    assert(s[0] != '\n' && s[0] != '\r');
    if rest.len() == 0 {
        assert(split_lines(s) == glue(seq![s[0]], split_lines(rest)));
        assert(seq![s[0]] =~= s);
        assert(split_lines(s) =~~= seq![s]);
    } else {
        lemma_split_single_line(rest);
        assert(split_lines(s) == glue(seq![s[0]], seq![rest]));
        assert(seq![s[0]] + rest =~= s);
        assert((seq![seq![s[0]] + rest] + seq![rest].drop_first()) =~= seq![s]);
    }
}

/// Splitting at the first line feed: a terminator-free prefix becomes the
/// first line; the rest is split on its own.
proof fn lemma_split_at_line_feed(a: Seq<char>, b: Seq<char>)
    requires
        terminator_free(a),
    ensures
        split_lines(a + seq!['\n'] + b) == seq![a] + split_lines(b),
    decreases a.len(),
{
    let s = a + seq!['\n'] + b;
    if a.len() == 0 {
        assert(s[0] == '\n');
        assert(s.skip(1) =~= b);
        assert(split_lines(s) == seq![Seq::<char>::empty()] + split_lines(b));
        assert(Seq::<char>::empty() =~= a);
    } else {
        assert(s[0] == a[0]);
        assert(forall|i: int| 0 <= i < a.len() ==> s[i] == a[i]);
        let a1 = a.drop_first();
        assert(forall|i: int| 0 <= i < a1.len() ==> a1[i] == a[i + 1]);
        assert(s.skip(1) =~= a1 + seq!['\n'] + b);
        lemma_split_at_line_feed(a1, b);
        let rest = seq![a1] + split_lines(b);
        assert(split_lines(s) == glue(seq![a[0]], rest));
        assert(seq![a[0]] + rest[0] =~= a);
        assert(rest.drop_first() =~= split_lines(b));
        assert(glue(seq![a[0]], rest) =~= seq![a] + split_lines(b));
    }
}

/// Splitting at the first carriage-return-line-feed pair: a terminator-free
/// prefix becomes the first line; the rest is split on its own.
proof fn lemma_split_at_crlf(a: Seq<char>, b: Seq<char>)
    requires
        terminator_free(a),
    ensures
        split_lines(a + seq!['\r', '\n'] + b) == seq![a] + split_lines(b),
    decreases a.len(),
{
    let s = a + seq!['\r', '\n'] + b;
    if a.len() == 0 {
        assert(s[0] == '\r' && s[1] == '\n');
        assert(s.skip(2) =~= b);
        assert(split_lines(s) == seq![Seq::<char>::empty()] + split_lines(b));
        assert(Seq::<char>::empty() =~= a);
    } else {
        assert(s[0] == a[0]);
        assert(forall|i: int| 0 <= i < a.len() ==> s[i] == a[i]);
        let a1 = a.drop_first();
        assert(forall|i: int| 0 <= i < a1.len() ==> a1[i] == a[i + 1]);
        assert(s.skip(1) =~= a1 + seq!['\r', '\n'] + b);
        lemma_split_at_crlf(a1, b);
        let rest = seq![a1] + split_lines(b);
        assert(split_lines(s) == glue(seq![a[0]], rest));
        assert(seq![a[0]] + rest[0] =~= a);
        assert(rest.drop_first() =~= split_lines(b));
        assert(glue(seq![a[0]], rest) =~= seq![a] + split_lines(b));
    }
}

/// A carriage return followed by a line feed marks the same single line
/// boundary as a line feed alone: both inputs sanitize to the same result.
pub proof fn lemma_crlf_equals_lf(a: Seq<char>, b: Seq<char>)
    requires
        terminator_free(a),
    ensures
        spec_sanitize(a + seq!['\r', '\n'] + b) == spec_sanitize(a + seq!['\n'] + b),
{
    lemma_split_at_crlf(a, b);
    lemma_split_at_line_feed(a, b);
}

/// Line joining: an internal line break becomes a single `-` between the
/// two lines, each line filtered and trimmed on its own, with the carried
/// last emitted character crossing the break, and the whole trimmed once
/// more.
pub proof fn lemma_line_joining(a: Seq<char>, b: Seq<char>)
    requires
        terminator_free(a),
        terminator_free(b),
        b.len() > 0,
    ensures
        spec_sanitize(a + seq!['\n'] + b) == trim_both(
            trim_both(line_emits(a, LAST_EMITTED_START)) + seq!['-'] + trim_both(
                line_emits(b, line_last(a, LAST_EMITTED_START)),
            ) + seq!['-'],
        ),
{
    lemma_split_at_line_feed(a, b);
    lemma_split_single_line(b);
    let lines = seq![a] + seq![b];
    assert(split_lines(a + seq!['\n'] + b) == lines) by {
        assert(seq![a] + seq![b] =~= seq![a] + split_lines(b));
    }
    let last1 = line_last(a, LAST_EMITTED_START);
    assert(lines[0] == a);
    assert(lines.drop_first() =~= seq![b]);
    assert(join_processed(lines, LAST_EMITTED_START) == trim_both(
        line_emits(a, LAST_EMITTED_START),
    ) + seq!['-'] + join_processed(seq![b], last1));
    assert(seq![b][0] == b);
    assert(seq![b].drop_first() =~= Seq::<Seq<char>>::empty());
    assert(join_processed(seq![b], last1) == trim_both(line_emits(b, last1)) + seq!['-']
        + join_processed(Seq::<Seq<char>>::empty(), line_last(b, last1)));
    assert(join_processed(Seq::<Seq<char>>::empty(), line_last(b, last1)) == Seq::<char>::empty());
    assert(join_processed(lines, LAST_EMITTED_START) =~= trim_both(
        line_emits(a, LAST_EMITTED_START),
    ) + seq!['-'] + trim_both(line_emits(b, last1)) + seq!['-']);
}

/// No space is directly followed by one of the separator-like characters
/// `_ . \ / , ;`.  On such sequences the suppression rule for separators
/// after whitespace never fires.
pub open spec fn space_separator_free(s: Seq<char>) -> bool {
    forall|i: int|
        #![trigger s[i]]
        0 <= i && i + 1 < s.len() ==> !(s[i] == ' ' && suppressed_after_whitespace(s[i + 1]))
}

/// The per-character filter leaves a sequence unchanged when every character
/// is of the emitted class, no space or underscore is doubled, no separator
/// follows a space, and the carried last emitted character triggers no rule
/// on the first character.
proof fn lemma_line_emits_identity(t: Seq<char>, last: char)
    requires
        all_emitted_class(t),
        no_repeated(t, ' '),
        no_repeated(t, '_'),
        space_separator_free(t),
        t.len() > 0 ==> !(t[0] == ' ' && last == ' ') && !(t[0] == '_' && last == '_') && !(
        suppressed_after_whitespace(t[0]) && is_whitespace(last)),
    ensures
        line_emits(t, last) == t,
        line_last(t, last) == if t.len() > 0 {
            t.last()
        } else {
            last
        },
    decreases t.len(),
{
    if t.len() > 0 {
        let c = t[0];
        assert(emitted_class(c));
        assert(normalize_whitespace(c) == c);
        assert(candidate(c) == c);
        assert(kept(c, last));
        assert(step_emits(c, last) == seq![c]);
        assert(step_last(c, last) == c);
        let t1 = t.drop_first();
        assert(forall|i: int| 0 <= i < t1.len() ==> t1[i] == t[i + 1]);
        assert forall|i: int| #![trigger t1[i]] 0 <= i && i + 1 < t1.len() implies !(t1[i] == ' '
            && t1[i + 1] == ' ') && !(t1[i] == '_' && t1[i + 1] == '_') && !(t1[i] == ' '
            && suppressed_after_whitespace(t1[i + 1])) by {
            assert(t1[i] == t[i + 1] && t1[i + 1] == t[i + 2]);
        }
        if t1.len() > 0 {
            assert(t1[0] == t[1]);
            assert(is_whitespace(c) ==> c == ' ');
        }
        lemma_line_emits_identity(t1, c);
        assert(line_emits(t, last) =~= t);
        if t1.len() > 0 {
            assert(t.last() == t1.last());
        }
    }
}

/// Trimming leaves a sequence unchanged when neither edge is of the trimmed
/// class.
proof fn lemma_trim_identity(t: Seq<char>)
    requires
        t.len() > 0 ==> !is_trimmed(t[0]) && !is_trimmed(t.last()),
    ensures
        trim_both(t) == t,
{
    assert(trim_start(t) == t);
    assert(trim_end(t) == t);
}

/// Idempotence, where it holds: when no space of the result is directly
/// followed by one of `_ . \ / , ;`, the result is a fixed point of the
/// transformation.  The condition cannot be dropped: a separator that a
/// rewrite placed right after a space survives the first pass but is
/// suppressed by a second one.
pub proof fn lemma_idempotent_when_stable(s: Seq<char>)
    requires
        space_separator_free(spec_sanitize(s)),
    ensures
        spec_sanitize(spec_sanitize(s)) == spec_sanitize(s),
{
    let out = spec_sanitize(s);
    lemma_output_profile(s);
    lemma_output_edges(s);
    if out.len() == 0 {
        assert(split_lines(out) == Seq::<Seq<char>>::empty());
        assert(join_processed(Seq::<Seq<char>>::empty(), LAST_EMITTED_START) == Seq::<
            char,
        >::empty());
        assert(trim_both(Seq::<char>::empty()) == Seq::<char>::empty());
    } else {
        assert forall|i: int| 0 <= i < out.len() implies out[i] != '\n' && out[i] != '\r' by {
            assert(emitted_class(out[i]));
            assert(is_whitespace('\n') && is_whitespace('\r'));
        }
        lemma_split_single_line(out);
        assert(!(suppressed_after_whitespace(out[0]) && is_whitespace(LAST_EMITTED_START)));
        lemma_line_emits_identity(out, LAST_EMITTED_START);
        lemma_trim_identity(out);
        let lines = seq![out];
        assert(lines[0] == out);
        assert(lines.drop_first() =~= Seq::<Seq<char>>::empty());
        assert(trim_both(line_emits(out, LAST_EMITTED_START)) == out);
        assert(join_processed(Seq::<Seq<char>>::empty(), line_last(out, LAST_EMITTED_START))
            == Seq::<char>::empty());
        assert(join_processed(lines, LAST_EMITTED_START) == trim_both(
            line_emits(lines[0], LAST_EMITTED_START),
        ) + seq!['-'] + join_processed(lines.drop_first(), line_last(lines[0], LAST_EMITTED_START)));
        assert(join_processed(lines, LAST_EMITTED_START) =~= out + seq!['-']);
        let closed = out + seq!['-'];
        assert(closed[0] == out[0]);
        assert(trim_start(closed) == closed);
        assert(closed.last() == '-');
        assert(is_trimmed('-'));
        assert(closed.drop_last() =~= out);
        assert(trim_end(closed) == trim_end(out));
        assert(trim_end(out) == out);
    }
}

/// Determinism: the transformation is a function of the input characters
/// alone, so any two results for the same input are equal.
pub proof fn lemma_deterministic(s: Seq<char>, out1: Seq<char>, out2: Seq<char>)
    requires
        out1 == spec_sanitize(s),
        out2 == spec_sanitize(s),
    ensures
        out1 == out2,
{
}

} // verus!
