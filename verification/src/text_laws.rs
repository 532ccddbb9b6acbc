//! What reading a text gives, said of texts put together from pieces.

use crate::text::{
    before_first, behind_last, behind_last_from, behind_prefix, decimal, decimal_reads_back, digit,
    digits_number, digits_value, has_prefix, is_blank, is_digit, is_white_space, last_word_end,
    lemma_place_of, lemma_word_bounds, lines, lines_from, lower, occurs_at, parts, parts_from,
    place_of, signed_number, trimmed, unsigned_number, word_end, word_start, words, words_from,
};
use vstd::prelude::*;

verus! {

// ---------------------------------------------------------------------------
// White space
// ---------------------------------------------------------------------------

/// Of the ASCII characters, the space and the five controls from tab to carriage return are white
/// space; no letter, digit or sign is.
pub proof fn ascii_white_space(ch: char)
    requires
        (ch as u32) < 128,
    ensures
        is_white_space(ch) <==> ch == ' ' || ch == '\t' || ch == '\n' || ch == '\u{b}' || ch
            == '\u{c}' || ch == '\r',
{
}

/// Beyond ASCII, white space is the next line, the spaces that do not break, the Ogham space, the
/// spaces of a fixed width, the two separators, the mathematical space and the ideographic one.
pub proof fn other_white_space(ch: char)
    requires
        ch as u32 >= 128,
    ensures
        is_white_space(ch) <==> {
            ||| ch == '\u{85}' || ch == '\u{a0}' || ch == '\u{202f}'
            ||| ch == '\u{1680}'
            ||| '\u{2000}' <= ch <= '\u{200a}'
            ||| ch == '\u{2028}' || ch == '\u{2029}'
            ||| ch == '\u{205f}'
            ||| ch == '\u{3000}'
        },
{
}

proof fn lemma_word_shift(front: Seq<char>, text: Seq<char>, from: int)
    requires
        0 <= from <= text.len(),
    ensures
        word_start(front + text, front.len() + from) == front.len() + word_start(text, from),
        word_end(front + text, front.len() + from) == front.len() + word_end(text, from),
    decreases text.len() - from,
{
    if from < text.len() {
        assert((front + text)[front.len() + from] == text[from]);
        lemma_word_shift(front, text, from + 1);
    }
}

proof fn lemma_words_shift(front: Seq<char>, text: Seq<char>, from: int)
    requires
        0 <= from <= text.len(),
    ensures
        words_from(front + text, front.len() + from) == words_from(text, from),
    decreases text.len() - from,
{
    let start = word_start(text, from);
    lemma_word_shift(front, text, from);
    lemma_word_bounds(text, from);
    lemma_word_shift(front, text, start);
    lemma_word_bounds(text, start);
    let end = word_end(text, start);
    if start < end {
        lemma_words_shift(front, text, end);
        assert((front + text).subrange(front.len() + start, front.len() + end) =~= text.subrange(
            start,
            end,
        ));
    }
}

proof fn lemma_word_start_is(text: Seq<char>, from: int, to: int)
    requires
        0 <= from <= to <= text.len(),
        forall|i: int| from <= i < to ==> is_white_space(#[trigger] text[i]),
        to < text.len() ==> !is_white_space(text[to]),
    ensures
        word_start(text, from) == to,
    decreases to - from,
{
    if from < to {
        assert(is_white_space(text[from]));
        lemma_word_start_is(text, from + 1, to);
    }
}

proof fn lemma_word_end_is(text: Seq<char>, from: int, to: int)
    requires
        0 <= from <= to <= text.len(),
        forall|i: int| from <= i < to ==> !is_white_space(#[trigger] text[i]),
        to < text.len() ==> is_white_space(text[to]),
    ensures
        word_end(text, from) == to,
    decreases to - from,
{
    if from < to {
        assert(!is_white_space(text[from]));
        lemma_word_end_is(text, from + 1, to);
    }
}

/// The first word of a text is the longest run without white space behind the white space that the
/// text begins with; the words behind it are those of the rest.
pub proof fn words_come_one_by_one(lead: Seq<char>, word: Seq<char>, rest: Seq<char>)
    requires
        forall|i: int| 0 <= i < lead.len() ==> is_white_space(#[trigger] lead[i]),
        word.len() > 0,
        forall|i: int| 0 <= i < word.len() ==> !is_white_space(#[trigger] word[i]),
        rest.len() > 0 ==> is_white_space(rest[0]),
    ensures
        words(lead + word + rest) == seq![word] + words(rest),
{
    let text = lead + word + rest;
    let start = lead.len() as int;
    let end = start + word.len();
    assert forall|i: int| 0 <= i < start implies is_white_space(#[trigger] text[i]) by {
        assert(text[i] == lead[i]);
    }
    assert forall|i: int| start <= i < end implies !is_white_space(#[trigger] text[i]) by {
        assert(text[i] == word[i - start]);
    }
    if rest.len() > 0 {
        assert(text[end] == rest[0]);
    }
    lemma_word_start_is(text, 0, start);
    lemma_word_end_is(text, start, end);
    assert(text.subrange(start, end) =~= word);
    assert(text =~= (lead + word) + rest);
    lemma_words_shift(lead + word, rest, 0);
}

/// A text has no words if and only if it is blank, and then nothing is left once it is trimmed.
pub proof fn blank_texts_have_no_words(text: Seq<char>)
    ensures
        (forall|i: int| 0 <= i < text.len() ==> is_white_space(#[trigger] text[i])) <==> is_blank(
            text,
        ),
        is_blank(text) <==> words(text).len() == 0,
        is_blank(text) <==> trimmed(text).len() == 0,
{
    lemma_word_bounds(text, 0);
    let start = word_start(text, 0);
    lemma_word_bounds(text, start);
    if is_blank(text) {
        lemma_word_start_is(text, 0, text.len() as int);
        assert(last_word_end(text, start, text.len() as int) == start);
    } else {
        assert(start < text.len());
        lemma_last_word_end(text, start, text.len() as int);
        assert(word_end(text, start) > start);
    }
}

proof fn lemma_last_word_end(text: Seq<char>, start: int, end: int)
    requires
        0 <= start < end <= text.len(),
        !is_white_space(text[start]),
    ensures
        start < last_word_end(text, start, end) <= end,
    decreases end - start,
{
    if is_white_space(text[end - 1]) {
        lemma_last_word_end(text, start, end - 1);
    }
}

proof fn lemma_last_word_end_is(text: Seq<char>, start: int, end: int, to: int)
    requires
        0 <= start < to <= end <= text.len(),
        !is_white_space(text[to - 1]),
        forall|i: int| to <= i < end ==> is_white_space(#[trigger] text[i]),
    ensures
        last_word_end(text, start, end) == to,
    decreases end - to,
{
    if to < end {
        assert(is_white_space(text[end - 1]));
        lemma_last_word_end_is(text, start, end - 1, to);
    }
}

/// Trimming takes away the white space at both ends, all of it, and nothing else.
pub proof fn trimming_takes_both_ends(lead: Seq<char>, inner: Seq<char>, tail: Seq<char>)
    requires
        forall|i: int| 0 <= i < lead.len() ==> is_white_space(#[trigger] lead[i]),
        forall|i: int| 0 <= i < tail.len() ==> is_white_space(#[trigger] tail[i]),
        inner.len() > 0,
        !is_white_space(inner[0]),
        !is_white_space(inner.last()),
    ensures
        trimmed(lead + inner + tail) == inner,
{
    let text = lead + inner + tail;
    let start = lead.len() as int;
    let end = start + inner.len();
    assert forall|i: int| 0 <= i < start implies is_white_space(#[trigger] text[i]) by {
        assert(text[i] == lead[i]);
    }
    assert(text[start] == inner[0]);
    lemma_word_start_is(text, 0, start);
    assert(text[end - 1] == inner.last());
    assert forall|i: int| end <= i < text.len() implies is_white_space(#[trigger] text[i]) by {
        assert(text[i] == tail[i - end]);
    }
    lemma_last_word_end_is(text, start, text.len() as int, end);
    assert(text.subrange(start, end) =~= inner);
}

// ---------------------------------------------------------------------------
// Searching
// ---------------------------------------------------------------------------

/// A text begins with a prefix if and only if it is that prefix with something behind it, and that
/// is what follows the prefix.
pub proof fn prefixes_come_first(text: Seq<char>, prefix: Seq<char>)
    ensures
        has_prefix(text, prefix) <==> exists|rest: Seq<char>| text == #[trigger] (prefix + rest),
        forall|rest: Seq<char>|
            text == #[trigger] (prefix + rest) ==> behind_prefix(text, prefix) == Some(rest),
        behind_prefix(text, prefix) is Some <==> has_prefix(text, prefix),
{
    if has_prefix(text, prefix) {
        assert(text =~= prefix + text.skip(prefix.len() as int));
    }
    assert forall|rest: Seq<char>| text == #[trigger] (prefix + rest) implies has_prefix(
        text,
        prefix,
    ) && behind_prefix(text, prefix) == Some(rest) by {
        assert(text.take(prefix.len() as int) =~= prefix);
        assert(text.skip(prefix.len() as int) =~= rest);
    }
}

proof fn lemma_place_is(text: Seq<char>, ch: char, from: int, to: int)
    requires
        0 <= from <= to <= text.len(),
        forall|i: int| from <= i < to ==> #[trigger] text[i] != ch,
        to < text.len() ==> text[to] == ch,
    ensures
        place_of(text, ch, from) == to,
    decreases to - from,
{
    if from < to {
        assert(text[from] != ch);
        lemma_place_is(text, ch, from + 1, to);
    }
}

/// What stands before the first such character is the front part; a text without it is its own
/// front part.
pub proof fn the_front_part_ends_at_the_first(front: Seq<char>, ch: char, rest: Seq<char>)
    requires
        !front.contains(ch),
    ensures
        before_first(front.push(ch) + rest, ch) == front,
        before_first(front, ch) == front,
{
    let text = front.push(ch) + rest;
    assert forall|i: int| 0 <= i < front.len() implies #[trigger] text[i] != ch by {
        assert(text[i] == front[i]);
        assert(front.contains(front[i]));
    }
    lemma_place_is(text, ch, 0, front.len() as int);
    assert(text.take(front.len() as int) =~= front);
    assert forall|i: int| 0 <= i < front.len() implies #[trigger] front[i] != ch by {
        assert(front.contains(front[i]));
    }
    lemma_place_is(front, ch, 0, front.len() as int);
    assert(front.take(front.len() as int) =~= front);
}

proof fn lemma_place_shift(front: Seq<char>, text: Seq<char>, ch: char, from: int)
    requires
        0 <= from <= text.len(),
    ensures
        place_of(front + text, ch, front.len() + from) == front.len() + place_of(text, ch, from),
    decreases text.len() - from,
{
    if from < text.len() {
        assert((front + text)[front.len() + from] == text[from]);
        lemma_place_shift(front, text, ch, from + 1);
    }
}

proof fn lemma_parts_shift(front: Seq<char>, text: Seq<char>, ch: char, from: int)
    requires
        0 <= from <= text.len(),
    ensures
        parts_from(front + text, ch, front.len() + from) == parts_from(text, ch, from),
    decreases text.len() - from,
{
    let place = place_of(text, ch, from);
    let whole = front + text;
    lemma_place_of(text, ch, from);
    lemma_place_shift(front, text, ch, from);
    assert(whole.subrange(front.len() + from, front.len() + place) =~= text.subrange(from, place));
    if place < text.len() {
        lemma_parts_shift(front, text, ch, place + 1);
    }
}

/// The parts of a text are its front part up to the first such character and the parts of what
/// stands behind it; a text without the character is its own only part.
pub proof fn parts_come_one_by_one(front: Seq<char>, ch: char, rest: Seq<char>)
    requires
        !front.contains(ch),
    ensures
        parts(front.push(ch) + rest, ch) == seq![front] + parts(rest, ch),
        parts(front, ch) == seq![front],
{
    let text = front.push(ch) + rest;
    assert forall|i: int| 0 <= i < front.len() implies #[trigger] text[i] != ch by {
        assert(text[i] == front[i]);
        assert(front.contains(front[i]));
    }
    lemma_place_is(text, ch, 0, front.len() as int);
    assert(text.subrange(0, front.len() as int) =~= front);
    lemma_parts_shift(front.push(ch), rest, ch, 0);
    assert forall|i: int| 0 <= i < front.len() implies #[trigger] front[i] != ch by {
        assert(front.contains(front[i]));
    }
    lemma_place_is(front, ch, 0, front.len() as int);
    assert(front.subrange(0, front.len() as int) =~= front);
}

proof fn lemma_behind_last(text: Seq<char>, pattern: Seq<char>, place: int, from: int)
    requires
        0 <= place <= from,
        occurs_at(text, pattern, place),
        forall|i: int| place < i <= from ==> !#[trigger] occurs_at(text, pattern, i),
    ensures
        behind_last_from(text, pattern, from) == Some(text.skip(place + pattern.len())),
    decreases from - place,
{
    if place < from {
        lemma_behind_last(text, pattern, place, from - 1);
    }
}

proof fn lemma_nothing_behind(text: Seq<char>, pattern: Seq<char>, from: int)
    requires
        forall|i: int| 0 <= i <= from ==> !#[trigger] occurs_at(text, pattern, i),
    ensures
        behind_last_from(text, pattern, from) is None,
    decreases from + 1,
{
    if from >= 0 {
        lemma_nothing_behind(text, pattern, from - 1);
    }
}

/// Of several occurrences of a pattern the last one counts: what stands behind it is the rest.
pub proof fn the_last_occurrence_counts(front: Seq<char>, pattern: Seq<char>, rest: Seq<char>)
    requires
        forall|before: Seq<char>, behind: Seq<char>|
            front + pattern + rest == #[trigger] (before + pattern + behind) ==> before.len()
                <= front.len(),
    ensures
        behind_last(front + pattern + rest, pattern) == Some(rest),
{
    let text = front + pattern + rest;
    let place = front.len() as int;
    assert(text.subrange(place, place + pattern.len()) =~= pattern);
    assert(occurs_at(text, pattern, place));
    assert forall|i: int| place < i <= text.len() implies !#[trigger] occurs_at(
        text,
        pattern,
        i,
    ) by {
        if occurs_at(text, pattern, i) {
            assert(text =~= text.take(i) + pattern + text.skip(i + pattern.len()));
        }
    }
    lemma_behind_last(text, pattern, place, text.len() as int);
    assert(text.skip(place + pattern.len()) =~= rest);
}

/// Nothing stands behind a pattern that does not occur.
pub proof fn without_an_occurrence_nothing_is_behind(text: Seq<char>, pattern: Seq<char>)
    requires
        forall|front: Seq<char>, rest: Seq<char>| text != #[trigger] (front + pattern + rest),
    ensures
        behind_last(text, pattern) is None,
{
    assert forall|i: int| 0 <= i <= text.len() implies !#[trigger] occurs_at(
        text,
        pattern,
        i,
    ) by {
        if occurs_at(text, pattern, i) {
            assert(text =~= text.take(i) + pattern + text.skip(i + pattern.len()));
        }
    }
    lemma_nothing_behind(text, pattern, text.len() as int);
}

proof fn lemma_lines_shift(front: Seq<char>, text: Seq<char>, from: int)
    requires
        0 <= from <= text.len(),
    ensures
        lines_from(front + text, front.len() + from) == lines_from(text, from),
    decreases text.len() - from,
{
    let place = place_of(text, '\n', from);
    let whole = front + text;
    lemma_place_of(text, '\n', from);
    lemma_place_shift(front, text, '\n', from);
    assert(whole.subrange(front.len() + from, front.len() + place) =~= text.subrange(from, place));
    if from < text.len() && place < text.len() {
        lemma_lines_shift(front, text, place + 1);
    }
}

/// The lines of a text are what stands before the first line feed, without one carriage return at
/// its end, and the lines of what stands behind it. What no line feed ends is a line as it is,
/// unless it is empty.
pub proof fn lines_come_one_by_one(line: Seq<char>, rest: Seq<char>)
    requires
        !line.contains('\n'),
    ensures
        (line.len() == 0 || line.last() != '\r') ==> lines(line.push('\n') + rest) == seq![line]
            + lines(rest),
        lines(line.push('\r').push('\n') + rest) == seq![line] + lines(rest),
        line.len() > 0 ==> lines(line) == seq![line],
        line.len() == 0 ==> lines(line) == Seq::<Seq<char>>::empty(),
{
    lemma_first_line(line, rest);
    let longer = line.push('\r');
    assert forall|i: int| 0 <= i < longer.len() implies #[trigger] longer[i] != '\n' by {
        if i < line.len() {
            assert(longer[i] == line[i]);
            assert(line.contains(line[i]));
        }
    }
    lemma_first_line(longer, rest);
    assert(longer.drop_last() =~= line);
    assert forall|i: int| 0 <= i < line.len() implies #[trigger] line[i] != '\n' by {
        assert(line.contains(line[i]));
    }
    lemma_place_is(line, '\n', 0, line.len() as int);
    assert(line.subrange(0, line.len() as int) =~= line);
}

proof fn lemma_first_line(line: Seq<char>, rest: Seq<char>)
    requires
        !line.contains('\n'),
    ensures
        lines(line.push('\n') + rest) == seq![
            if line.len() > 0 && line.last() == '\r' {
                line.drop_last()
            } else {
                line
            },
        ] + lines(rest),
{
    let text = line.push('\n') + rest;
    assert forall|i: int| 0 <= i < line.len() implies #[trigger] text[i] != '\n' by {
        assert(text[i] == line[i]);
        assert(line.contains(line[i]));
    }
    lemma_place_is(text, '\n', 0, line.len() as int);
    assert(text.subrange(0, line.len() as int) =~= line);
    lemma_lines_shift(line.push('\n'), rest, 0);
}

// ---------------------------------------------------------------------------
// Numbers
// ---------------------------------------------------------------------------

/// One digit more multiplies what the text writes by ten and adds the digit.
pub proof fn one_digit_more(text: Seq<char>, ch: char)
    requires
        '0' <= ch <= '9',
    ensures
        unsigned_number(seq![ch]) == Some((ch as u32 - '0' as u32) as nat),
        unsigned_number(text) matches Some(value) ==> unsigned_number(text.push(ch)) == Some(
            (value * 10 + (ch as u32 - '0' as u32)) as nat,
        ),
{
    assert(seq![ch].drop_last() =~= Seq::<char>::empty());
    assert(digits_value(seq![ch].drop_last()) == 0);
    assert(digits_number(seq![ch]) == Some(digits_value(seq![ch])));
    if unsigned_number(text) is Some {
        let longer = text.push(ch);
        if text[0] == '+' {
            lemma_one_digit_more(text.skip(1), ch);
            assert(longer.skip(1) =~= text.skip(1).push(ch));
        } else {
            lemma_one_digit_more(text, ch);
        }
    }
}

proof fn lemma_one_digit_more(digits: Seq<char>, ch: char)
    requires
        '0' <= ch <= '9',
        digits_number(digits) is Some,
    ensures
        digits_number(digits.push(ch)) == Some(
            (digits_value(digits) * 10 + (ch as u32 - '0' as u32)) as nat,
        ),
{
    let longer = digits.push(ch);
    assert(longer.drop_last() =~= digits);
    assert forall|i: int| 0 <= i < longer.len() implies is_digit(#[trigger] longer[i]) by {
        if i < digits.len() {
            assert(longer[i] == digits[i]);
        }
    }
}

/// A plus in front of digits changes nothing, and a minus turns the number's sign.
pub proof fn signs_stand_in_front(digits: Seq<char>)
    requires
        digits.len() > 0,
        forall|i: int| 0 <= i < digits.len() ==> '0' <= #[trigger] digits[i] <= '9',
    ensures
        unsigned_number(digits) is Some,
        unsigned_number(seq!['+'] + digits) == unsigned_number(digits),
        signed_number(digits) == Some(unsigned_number(digits)->0 as int),
        signed_number(seq!['+'] + digits) == Some(unsigned_number(digits)->0 as int),
        signed_number(seq!['-'] + digits) == Some(-(unsigned_number(digits)->0 as int)),
        unsigned_number(seq!['-'] + digits) is None,
{
    assert((seq!['+'] + digits).skip(1) =~= digits);
    assert((seq!['-'] + digits).skip(1) =~= digits);
    assert(digits[0] != '+');
    assert((seq!['-'] + digits)[0] == '-');
    assert(!is_digit((seq!['-'] + digits)[0]));
}

/// What holds anything but digits behind an optional sign, or no digit, writes no number.
pub proof fn other_texts_write_no_number(text: Seq<char>, place: int)
    requires
        text.len() == 0 || (text.len() == 1 && (text[0] == '+' || text[0] == '-')) || (0 <= place
            < text.len() && !('0' <= text[place] <= '9') && (place == 0 ==> text[0] != '+'
            && text[0] != '-')),
    ensures
        unsigned_number(text) is None,
        signed_number(text) is None,
{
    if text.len() > 0 {
        if 0 <= place < text.len() && !('0' <= text[place] <= '9') && place > 0 {
            assert(text.skip(1)[place - 1] == text[place]);
            assert(!is_digit(text.skip(1)[place - 1]));
        }
        if 0 <= place < text.len() && !('0' <= text[place] <= '9') {
            assert(!is_digit(text[place]));
        }
        if text.len() == 1 {
            assert(text.skip(1).len() == 0);
            if text[0] == '-' {
                assert(!is_digit(text[0]));
            }
        }
    }
}

/// A number is written with digits alone, with no zero in front but zero itself, and reads back.
pub proof fn numbers_are_written_plainly(number: nat)
    ensures
        decimal(number).len() > 0,
        forall|i: int| 0 <= i < decimal(number).len() ==> '0' <= #[trigger] decimal(number)[i]
            <= '9',
        decimal(number)[0] == '0' ==> number == 0 && decimal(number).len() == 1,
        unsigned_number(decimal(number)) == Some(number),
    decreases number,
{
    decimal_reads_back(number);
    if number >= 10 {
        numbers_are_written_plainly(number / 10);
        let shorter = decimal(number / 10);
        assert(decimal(number) == shorter.push(digit(number % 10)));
        assert(decimal(number)[0] == shorter[0]);
        assert forall|i: int| 0 <= i < decimal(number).len() implies '0' <= #[trigger] decimal(
            number,
        )[i] <= '9' by {
            if i < shorter.len() {
                assert(decimal(number)[i] == shorter[i]);
            }
        }
    }
}

// ---------------------------------------------------------------------------
// Letters
// ---------------------------------------------------------------------------

/// Making a text small keeps its length, turns each of the letters `A` to `Z` into the small letter
/// at the same place in the alphabet, and keeps everything else; what is small already stays.
pub proof fn capitals_become_small(text: Seq<char>, place: int)
    requires
        0 <= place < text.len(),
    ensures
        lower(text).len() == text.len(),
        'A' <= text[place] <= 'Z' ==> lower(text)[place] as u32 - 'a' as u32 == text[place] as u32
            - 'A' as u32,
        !('A' <= text[place] <= 'Z') ==> lower(text)[place] == text[place],
        !('A' <= lower(text)[place] <= 'Z'),
        lower(lower(text)) == lower(text),
{
    assert forall|i: int| 0 <= i < text.len() implies lower(lower(text))[i] == #[trigger] lower(
        text,
    )[i] by {
    }
    assert(lower(lower(text)) =~= lower(text));
}

} // verus!
