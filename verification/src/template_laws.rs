//! What templates, values and terms hold.

use vstd::prelude::*;

use crate::template::{
    is_letter, is_space, is_term_byte, lowered, next_letter, run_end, template_from, template_of,
    term_end, terms_from, terms_of, values_of, varies, PLACEHOLDER,
};

verus! {

/// A decimal digit, as a byte.
pub open spec fn stands_for_digit(byte: u8) -> bool {
    '0' as u8 <= byte <= '9' as u8
}

/// A blank, as a byte: space, tab, line feed, form feed or carriage return.
pub open spec fn stands_for_blank(byte: u8) -> bool {
    byte == ' ' as u8 || byte == '\t' as u8 || byte == '\n' as u8 || byte == 12 || byte == '\r' as u8
}

/// An ASCII letter, as a byte.
pub open spec fn stands_for_letter(byte: u8) -> bool {
    'a' as u8 <= byte <= 'z' as u8 || 'A' as u8 <= byte <= 'Z' as u8
}

/// Whether a word holds a digit and no blank.
pub open spec fn is_varying_word(word: Seq<u8>) -> bool {
    &&& exists|i: int| 0 <= i < word.len() && stands_for_digit(#[trigger] word[i])
    &&& forall|i: int| 0 <= i < word.len() ==> !stands_for_blank(#[trigger] word[i])
}

/// Whether every placeholder of a template stands between blanks.
pub open spec fn placeholders_stand_apart(template: Seq<u8>) -> bool {
    forall|i: int|
        0 <= i < template.len() && #[trigger] template[i] == PLACEHOLDER ==> (i == 0
            || stands_for_blank(template[i - 1])) && (i + 1 == template.len() || stands_for_blank(
            template[i + 1],
        ))
}

proof fn lemma_run(line: Seq<u8>, cursor: int, space: bool)
    requires
        0 <= cursor <= line.len(),
    ensures
        cursor <= run_end(line, cursor, space) <= line.len(),
        forall|i: int|
            cursor <= i < run_end(line, cursor, space) ==> is_space(#[trigger] line[i]) == space,
        run_end(line, cursor, space) < line.len() ==> is_space(
            line[run_end(line, cursor, space)],
        ) != space,
    decreases line.len() - cursor,
{
    if cursor < line.len() && is_space(line[cursor]) == space {
        lemma_run(line, cursor + 1, space);
    }
}

proof fn lemma_template(line: Seq<u8>, cursor: int)
    requires
        !line.contains(PLACEHOLDER),
        0 <= cursor <= line.len(),
    ensures
        ({
            let (template, values) = template_from(line, cursor);
            &&& forall|i: int|
                0 <= i < template.len() ==> !stands_for_digit(#[trigger] template[i])
            &&& forall|i: int| 0 <= i < values.len() ==> is_varying_word(#[trigger] values[i])
            &&& placeholders_stand_apart(template)
            &&& cursor < line.len() ==> template.len() > 0 && stands_for_blank(template[0])
                == stands_for_blank(line[cursor])
            &&& cursor == line.len() ==> template.len() == 0
        }),
    decreases line.len() - cursor,
{
    if cursor < line.len() {
        let space = is_space(line[cursor]);
        lemma_run(line, cursor + 1, space);
        let end = run_end(line, cursor + 1, space);
        let part = line.subrange(cursor, end);
        let (rest, later) = template_from(line, end);
        let (template, values) = template_from(line, cursor);
        lemma_template(line, end);
        assert(forall|i: int| 0 <= i < part.len() ==> is_space(#[trigger] part[i]) == space) by {
            assert(forall|i: int| 0 <= i < part.len() ==> #[trigger] part[i] == line[cursor + i]);
        }
        assert(forall|i: int| 0 <= i < part.len() ==> #[trigger] part[i] != PLACEHOLDER) by {
            assert forall|i: int| 0 <= i < part.len() implies #[trigger] part[i] != PLACEHOLDER by {
                assert(line.contains(line[cursor + i]));
            }
        }
        if !space && varies(part) {
            assert(template == seq![PLACEHOLDER] + rest && values == seq![part] + later);
            assert(is_varying_word(part));
            assert forall|i: int| 0 <= i < values.len() implies is_varying_word(
                #[trigger] values[i],
            ) by {
                if i > 0 {
                    assert(values[i] == later[i - 1]);
                }
            }
            assert forall|i: int| 0 <= i < template.len() implies !stands_for_digit(
                #[trigger] template[i],
            ) by {
                if i > 0 {
                    assert(template[i] == rest[i - 1]);
                }
            }
            assert forall|i: int|
                0 <= i < template.len() && #[trigger] template[i] == PLACEHOLDER implies (i == 0
                || stands_for_blank(template[i - 1])) && (i + 1 == template.len()
                || stands_for_blank(template[i + 1])) by {
                if i > 0 {
                    assert(template[i] == rest[i - 1]);
                    assert(rest[i - 1] == PLACEHOLDER);
                    if i == 1 {
                        assert(stands_for_blank(rest[0]));
                    }
                    if i + 1 < template.len() {
                        assert(template[i + 1] == rest[i]);
                    }
                    if i > 1 {
                        assert(template[i - 1] == rest[i - 2]);
                    }
                } else if template.len() > 1 {
                    assert(template[1] == rest[0]);
                }
            }
        } else {
            assert(template == part + rest && values == later);
            assert forall|i: int| 0 <= i < template.len() implies !stands_for_digit(
                #[trigger] template[i],
            ) by {
                if i < part.len() {
                    assert(template[i] == part[i]);
                } else {
                    assert(template[i] == rest[i - part.len()]);
                }
            }
            assert forall|i: int|
                0 <= i < template.len() && #[trigger] template[i] == PLACEHOLDER implies (i == 0
                || stands_for_blank(template[i - 1])) && (i + 1 == template.len()
                || stands_for_blank(template[i + 1])) by {
                let n = part.len() as int;
                if i < n {
                    assert(template[i] == part[i]);
                } else {
                    assert(template[i] == rest[i - n]);
                    assert(rest[i - n] == PLACEHOLDER);
                    if i + 1 < template.len() {
                        assert(template[i + 1] == rest[i - n + 1]);
                    }
                    if i > n {
                        assert(template[i - 1] == rest[i - n - 1]);
                    } else {
                        assert(template[i - 1] == part[n - 1]);
                        assert(!stands_for_blank(rest[0]));
                        assert(is_space(part[n - 1]) == space);
                    }
                }
            }
            assert(template[0] == part[0]);
            assert(part[0] == line[cursor]);
        }
    }
}

/// The words of a line that hold a digit are taken out whole, and nothing else is:
/// no digit stays in the template, every value is a word with a digit, and every
/// placeholder stands where a whole word stood.
pub proof fn varying_words_are_taken_out_whole(line: Seq<u8>)
    requires
        !line.contains(PLACEHOLDER),
    ensures
        forall|i: int|
            0 <= i < template_of(line).len() ==> !stands_for_digit(#[trigger] template_of(line)[i]),
        forall|i: int|
            0 <= i < values_of(line).len() ==> is_varying_word(#[trigger] values_of(line)[i]),
        placeholders_stand_apart(template_of(line)),
{
    lemma_template(line, 0);
}

/// A line without digits is its own template.
pub proof fn plain_lines_are_their_template(line: Seq<u8>)
    requires
        forall|i: int| 0 <= i < line.len() ==> !stands_for_digit(#[trigger] line[i]),
    ensures
        template_of(line) == line,
        values_of(line).len() == 0,
{
    lemma_plain(line, 0);
    assert(line.skip(0) =~= line);
}

proof fn lemma_plain(line: Seq<u8>, cursor: int)
    requires
        0 <= cursor <= line.len(),
        forall|i: int| 0 <= i < line.len() ==> !stands_for_digit(#[trigger] line[i]),
    ensures
        template_from(line, cursor).0 == line.skip(cursor),
        template_from(line, cursor).1.len() == 0,
    decreases line.len() - cursor,
{
    if cursor < line.len() {
        let space = is_space(line[cursor]);
        lemma_run(line, cursor + 1, space);
        let end = run_end(line, cursor + 1, space);
        let part = line.subrange(cursor, end);
        lemma_plain(line, end);
        assert(!varies(part)) by {
            assert(forall|i: int| 0 <= i < part.len() ==> #[trigger] part[i] == line[cursor + i]);
        }
        assert(part + line.skip(end) =~= line.skip(cursor));
    }
}

/// Lowering changes only the capitals, each to the small letter thirty-two above it.
pub proof fn only_capitals_are_lowered(bytes: Seq<u8>)
    ensures
        lowered(bytes).len() == bytes.len(),
        forall|i: int|
            0 <= i < bytes.len() ==> (#[trigger] lowered(bytes)[i]) == (if 'A' as u8 <= bytes[i]
                <= 'Z' as u8 {
                bytes[i] + 32
            } else {
                bytes[i] as int
            }),
        lowered(lowered(bytes)) == lowered(bytes),
{
    assert(lowered(lowered(bytes)) =~= lowered(bytes));
}

/// Whether a letter or a digit.
pub open spec fn stands_in_words(byte: u8) -> bool {
    stands_for_letter(byte) || stands_for_digit(byte)
}

/// Whether a range is a term: it starts with the first letter of a run of letters
/// and digits, and ends with the run.
pub open spec fn is_term_at(text: Seq<u8>, start: int, end: int) -> bool {
    &&& 0 <= start < end <= text.len()
    &&& stands_for_letter(text[start])
    &&& forall|k: int| start <= k < end ==> stands_in_words(#[trigger] text[k])
    &&& end < text.len() ==> !stands_in_words(text[end])
    &&& forall|k: int|
        0 <= k < start && stands_for_letter(#[trigger] text[k]) ==> breaks_between(text, k, start)
}

/// Whether a byte that no word holds stands between two places.
pub open spec fn breaks_between(text: Seq<u8>, from: int, to: int) -> bool {
    exists|m: int| from < m < to && !stands_in_words(#[trigger] text[m])
}

proof fn lemma_next_letter(text: Seq<u8>, cursor: int)
    requires
        0 <= cursor <= text.len(),
    ensures
        cursor <= next_letter(text, cursor) <= text.len(),
        forall|k: int|
            cursor <= k < next_letter(text, cursor) ==> !stands_for_letter(#[trigger] text[k]),
        next_letter(text, cursor) < text.len() ==> stands_for_letter(
            text[next_letter(text, cursor)],
        ),
    decreases text.len() - cursor,
{
    if cursor < text.len() && !is_letter(text[cursor]) {
        lemma_next_letter(text, cursor + 1);
    }
}

proof fn lemma_term_end(text: Seq<u8>, cursor: int)
    requires
        0 <= cursor <= text.len(),
    ensures
        cursor <= term_end(text, cursor) <= text.len(),
        forall|k: int|
            cursor <= k < term_end(text, cursor) ==> stands_in_words(#[trigger] text[k]),
        term_end(text, cursor) < text.len() ==> !stands_in_words(text[term_end(text, cursor)]),
    decreases text.len() - cursor,
{
    if cursor < text.len() && is_term_byte(text[cursor]) {
        lemma_term_end(text, cursor + 1);
    }
}

/// Whether a term of a text from a place on is a word in small letters.
pub open spec fn has_term_from(text: Seq<u8>, cursor: int, word: Seq<u8>) -> bool {
    exists|start: int, end: int|
        cursor <= start && #[trigger] is_term_at(text, start, end) && lowered(
            text.subrange(start, end),
        ) == word
}

proof fn lemma_terms(text: Seq<u8>, cursor: int, word: Seq<u8>)
    requires
        0 <= cursor <= text.len(),
        cursor == 0 || cursor == text.len() || !stands_in_words(text[cursor]),
    ensures
        terms_from(text, cursor).contains(word) <==> has_term_from(text, cursor, word),
    decreases text.len() - cursor,
{
    lemma_next_letter(text, cursor);
    let start = next_letter(text, cursor);
    lemma_term_end(text, start);
    let end = term_end(text, start);
    if start < text.len() {
        assert(end > start) by {
            assert(term_end(text, start) == term_end(text, start + 1));
            lemma_term_end(text, start + 1);
        }
        lemma_terms(text, end, word);
        let first = lowered(text.subrange(start, end));
        assert(is_term_at(text, start, end)) by {
            assert forall|k: int|
                0 <= k < start && stands_for_letter(#[trigger] text[k]) implies breaks_between(
                text,
                k,
                start,
            ) by {
                assert(k < cursor);
                assert(!stands_in_words(text[cursor]));
                assert(cursor < start);
            }
        }
        if has_term_from(text, cursor, word) {
            let (s, e) = choose|s: int, e: int|
                cursor <= s && #[trigger] is_term_at(text, s, e) && lowered(text.subrange(s, e))
                    == word;
            assert(s >= start) by {
                assert(stands_for_letter(text[s]));
            }
            if s < end {
                if s > start {
                    assert(stands_for_letter(text[start]));
                    assert(breaks_between(text, start, s));
                }
                assert(s == start);
                if e < end {
                    assert(stands_in_words(text[e]));
                }
                if e > end {
                    assert(stands_in_words(text[end]));
                }
                assert(word == first);
            } else {
                assert(has_term_from(text, end, word));
            }
        }
        if word == first {
            assert(has_term_from(text, cursor, word));
        }
        if has_term_from(text, end, word) {
            let (s, e) = choose|s: int, e: int|
                end <= s && #[trigger] is_term_at(text, s, e) && lowered(text.subrange(s, e))
                    == word;
            assert(has_term_from(text, cursor, word));
        }
    } else {
        if has_term_from(text, cursor, word) {
            let (s, e) = choose|s: int, e: int|
                cursor <= s && #[trigger] is_term_at(text, s, e) && lowered(text.subrange(s, e))
                    == word;
            assert(stands_for_letter(text[s]));
        }
    }
}

/// The terms of a template are its words from their first letter on, in small
/// letters, and nothing else.
pub proof fn terms_are_the_words(template: Seq<u8>, word: Seq<u8>)
    ensures
        terms_of(template).contains(word) <==> has_term_from(template, 0, word),
{
    lemma_terms(template, 0, word);
}

} // verus!
