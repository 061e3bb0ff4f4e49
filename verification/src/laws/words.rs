//! Characters, words, lines and separators.
use crate::server::lemma_first_word_is;
use crate::text::{
    after_prefix, first_line, first_word, ink, is_space, lemma_span_bounds, lemma_span_is,
    lemma_without_trailing_is, other_than, space, split_at_first, trim_start, trimmed,
};
use vstd::prelude::*;
use vstd::string::*;

verus! {

/// White space is what Unicode calls so.
pub proof fn white_space_is_that_of_unicode(c: char)
    ensures
        is_space(c) <==> c == '\t' || c == '\n' || c == '\u{b}' || c == '\u{c}' || c == '\r' || c
            == ' ' || c == '\u{85}' || c == '\u{a0}' || c == '\u{1680}' || '\u{2000}' <= c
            <= '\u{200a}' || c == '\u{2028}' || c == '\u{2029}' || c == '\u{202f}' || c
            == '\u{205f}' || c == '\u{3000}',
{
}

/// Whether a text is white space and nothing else.
pub open spec fn is_blank(s: Seq<char>) -> bool {
    forall|i: int| 0 <= i < s.len() ==> is_space(#[trigger] s[i])
}

/// Trimming takes the white space at the ends away, and nothing else.
pub proof fn trimming_keeps_what_is_between(lead: Seq<char>, core: Seq<char>, trail: Seq<char>)
    requires
        is_blank(lead),
        is_blank(trail),
        core.len() > 0,
        !is_space(core[0]),
        !is_space(core[core.len() - 1]),
    ensures
        trimmed(lead + core + trail) == core,
{
    let s = lead + core + trail;
    assert forall|i: int| 0 <= i < lead.len() implies space()(#[trigger] s[i]) by {
        assert(s[i] == lead[i]);
    }
    assert(s[lead.len() as int] == core[0]);
    lemma_span_is(s, space(), lead.len() as int);
    let t = s.skip(lead.len() as int);
    assert(t =~= core + trail);
    assert forall|i: int| core.len() <= i < t.len() implies space()(#[trigger] t[i]) by {
        assert(t[i] == trail[i - core.len()]);
    }
    assert(t[core.len() - 1] == core[core.len() - 1]);
    lemma_without_trailing_is(t, space(), core.len() as int);
    assert(t.take(core.len() as int) =~= core);
}

/// Nothing is left of white space that is trimmed, and it has no word.
pub proof fn blank_text_has_no_word(s: Seq<char>)
    requires
        is_blank(s),
    ensures
        trimmed(s).len() == 0,
        first_word(s).0.len() == 0,
{
    assert forall|i: int| 0 <= i < s.len() implies space()(#[trigger] s[i]) by {
    }
    lemma_span_is(s, space(), s.len() as int);
    let t = trim_start(s);
    assert(t.len() == 0);
    lemma_without_trailing_is(t, space(), 0);
    assert(t.take(0).len() == 0);
    lemma_span_bounds(t, ink());
}

/// The first word stands between white space.
pub proof fn first_word_stands_between_white_space(
    lead: Seq<char>,
    word: Seq<char>,
    rest: Seq<char>,
)
    requires
        is_blank(lead),
        word.len() > 0,
        forall|i: int| 0 <= i < word.len() ==> !is_space(#[trigger] word[i]),
        rest.len() > 0 ==> is_space(rest[0]),
    ensures
        first_word(lead + word + rest).0 == word,
        first_word(lead + word + rest).1 == rest,
{
    lemma_first_word_is(lead, word, rest);
}

/// The first line ends before a line feed, and before a carriage return in front of that.
pub proof fn first_line_ends_at_a_line_feed(line: Seq<char>, rest: Seq<char>)
    requires
        !line.contains('\n'),
    ensures
        line.len() == 0 || line[line.len() - 1] != '\r' ==> first_line(
            line + seq!['\n'] + rest,
        ) == Some(line),
        first_line(line + seq!['\r', '\n'] + rest) == Some(line),
        line.len() > 0 ==> first_line(line) == Some(line),
        first_line(Seq::empty()) is None,
{
    let feed = line + seq!['\n'] + rest;
    let both = line + seq!['\r', '\n'] + rest;
    assert forall|i: int| 0 <= i < line.len() implies other_than('\n')(#[trigger] feed[i]) by {
        assert(feed[i] == line[i] && line.contains(line[i]));
    }
    assert forall|i: int| 0 <= i < line.len() + 1 implies other_than('\n')(#[trigger] both[i]) by {
        if i < line.len() {
            assert(both[i] == line[i] && line.contains(line[i]));
        }
    }
    assert forall|i: int| 0 <= i < line.len() implies other_than('\n')(#[trigger] line[i]) by {
        assert(line.contains(line[i]));
    }
    lemma_span_is(feed, other_than('\n'), line.len() as int);
    lemma_span_is(both, other_than('\n'), line.len() as int + 1);
    lemma_span_is(line, other_than('\n'), line.len() as int);
    assert(feed.take(line.len() as int) =~= line);
    assert(both.take(line.len() as int) =~= line);
    assert(both[line.len() as int] == '\r');
    assert(line.take(line.len() as int) =~= line);
}

/// A text is split at the first separator, and not at all where there is none.
pub proof fn split_is_at_the_first_separator(a: Seq<char>, separator: char, b: Seq<char>)
    requires
        !a.contains(separator),
    ensures
        split_at_first(a + seq![separator] + b, separator) == Some((a, b)),
        split_at_first(a, separator) is None,
{
    let s = a + seq![separator] + b;
    assert forall|i: int| 0 <= i < a.len() implies other_than(separator)(#[trigger] s[i]) by {
        assert(s[i] == a[i] && a.contains(a[i]));
    }
    assert forall|i: int| 0 <= i < a.len() implies other_than(separator)(#[trigger] a[i]) by {
        assert(a.contains(a[i]));
    }
    lemma_span_is(s, other_than(separator), a.len() as int);
    lemma_span_is(a, other_than(separator), a.len() as int);
    assert(s.take(a.len() as int) =~= a);
    assert(s.skip(a.len() as int + 1) =~= b);
}

/// A prefix is cut off where it is there, and nowhere else.
pub proof fn prefix_is_cut_off(prefix: Seq<char>, rest: Seq<char>, s: Seq<char>)
    ensures
        after_prefix(prefix + rest, prefix) == Some(rest),
        after_prefix(s, prefix) is Some ==> s == prefix + after_prefix(s, prefix)->0,
{
    assert((prefix + rest).take(prefix.len() as int) =~= prefix);
    assert((prefix + rest).skip(prefix.len() as int) =~= rest);
    if after_prefix(s, prefix) is Some {
        assert(s =~= s.take(prefix.len() as int) + s.skip(prefix.len() as int));
    }
}

} // verus!
