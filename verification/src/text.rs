//! Text as sequences of characters: reading it, searching it and building it.

use vstd::prelude::*;

verus! {

/// `String::push` leaves the string as it was with that one character behind it.
pub assume_specification[ String::push ](string: &mut String, ch: char)
    ensures
        final(string)@ == old(string)@.push(ch),
;

/// The texts of a sequence of strings.
pub open spec fn texts(strings: Seq<String>) -> Seq<Seq<char>> {
    Seq::new(strings.len(), |i: int| strings[i]@)
}

/// The text of an optional string.
pub open spec fn optional_text(string: Option<String>) -> Option<Seq<char>> {
    match string {
        Some(inner) => Some(inner@),
        None => None,
    }
}

/// The text of an optional string slice.
pub open spec fn slice_text(slice: Option<&str>) -> Option<Seq<char>> {
    match slice {
        Some(inner) => Some(inner@),
        None => None,
    }
}

/// The characters of a text, one by one.
pub fn chars_of(text: &str) -> (chars: Vec<char>)
    ensures
        chars@ == text@,
{
    let mut chars: Vec<char> = Vec::new();
    for ch in it: text.chars()
        invariant
            chars@ == text@.take(it.index() as int),
            it.seq() == text@,
    {
        chars.push(ch);
        assert(text@.take(it.index() + 1) =~= text@.take(it.index() as int).push(ch));
    }
    assert(text@.take(text@.len() as int) =~= text@);
    chars
}

/// The string of the characters from `from` up to, not including, `to`.
pub fn string_of(chars: &Vec<char>, from: usize, to: usize) -> (string: String)
    requires
        from <= to <= chars@.len(),
    ensures
        string@ == chars@.subrange(from as int, to as int),
{
    let mut string = String::new();
    let mut at: usize = from;
    while at < to
        invariant
            from <= at <= to <= chars@.len(),
            string@ == chars@.subrange(from as int, at as int),
        decreases to - at,
    {
        string.push(chars[at]);
        at = at + 1;
        assert(chars@.subrange(from as int, at as int) =~= chars@.subrange(from as int, at - 1).push(
            chars@[at - 1],
        ));
    }
    string
}

/// Whether two texts hold the same characters.
pub fn same_text(left: &str, right: &str) -> (same: bool)
    ensures
        same == (left@ == right@),
{
    left.to_owned() == right.to_owned()
}

/// Whether both are missing or hold the same text.
pub fn same_optional(left: &Option<String>, right: &Option<String>) -> (same: bool)
    ensures
        same == (optional_text(*left) == optional_text(*right)),
{
    match (left, right) {
        (Some(inner), Some(other)) => same_text(inner.as_str(), other.as_str()),
        (None, None) => true,
        _ => false,
    }
}

/// Whether the strings hold the same texts in the same order.
pub fn same_strings(left: &Vec<String>, right: &Vec<String>) -> (same: bool)
    ensures
        same == (texts(left@) == texts(right@)),
{
    if left.len() != right.len() {
        assert(texts(left@).len() != texts(right@).len());
        return false;
    }
    let mut at: usize = 0;
    while at < left.len()
        invariant
            left@.len() == right@.len(),
            at <= left@.len(),
            forall|i: int| 0 <= i < at ==> #[trigger] texts(left@)[i] == texts(right@)[i],
        decreases left.len() - at,
    {
        assert(texts(left@)[at as int] == left@[at as int]@);
        assert(texts(right@)[at as int] == right@[at as int]@);
        if !same_text(left[at].as_str(), right[at].as_str()) {
            return false;
        }
        at = at + 1;
    }
    assert(texts(left@) =~= texts(right@));
    true
}

/// Whether one of the strings holds exactly this text.
pub fn holds_text(strings: &Vec<String>, text: &str) -> (found: bool)
    ensures
        found == texts(strings@).contains(text@),
{
    let mut at: usize = 0;
    while at < strings.len()
        invariant
            at <= strings@.len(),
            forall|i: int| 0 <= i < at ==> texts(strings@)[i] != text@,
        decreases strings.len() - at,
    {
        if same_text(strings[at].as_str(), text) {
            assert(texts(strings@)[at as int] == text@);
            return true;
        }
        at = at + 1;
    }
    false
}

/// Whether one of the texts is empty.
pub open spec fn some_empty(all: Seq<Seq<char>>) -> bool {
    exists|i: int| 0 <= i < all.len() && (#[trigger] all[i]).len() == 0
}

/// Whether one of the strings is empty.
pub fn holds_empty(strings: &Vec<String>) -> (found: bool)
    ensures
        found == some_empty(texts(strings@)),
{
    let mut at: usize = 0;
    while at < strings.len()
        invariant
            at <= strings@.len(),
            forall|i: int| 0 <= i < at ==> (#[trigger] texts(strings@)[i]).len() > 0,
        decreases strings.len() - at,
    {
        if strings[at].as_str().is_empty() {
            assert(texts(strings@)[at as int].len() == 0);
            return true;
        }
        at = at + 1;
    }
    false
}

/// Copies of the strings, in the same order.
pub fn copy_strings(strings: &Vec<String>) -> (copies: Vec<String>)
    ensures
        texts(copies@) == texts(strings@),
{
    let mut copies: Vec<String> = Vec::new();
    let mut at: usize = 0;
    while at < strings.len()
        invariant
            at <= strings@.len(),
            copies@.len() == at,
            forall|i: int| 0 <= i < at ==> (#[trigger] copies@[i])@ == strings@[i]@,
        decreases strings.len() - at,
    {
        copies.push(strings[at].clone());
        at = at + 1;
    }
    assert(texts(copies@) =~= texts(strings@));
    copies
}

/// A copy of the optional string.
pub fn copy_optional(string: &Option<String>) -> (copy: Option<String>)
    ensures
        optional_text(copy) == optional_text(*string),
{
    match string {
        Some(inner) => Some(inner.clone()),
        None => None,
    }
}

// ---------------------------------------------------------------------------
// White space
// ---------------------------------------------------------------------------

/// The characters with Unicode's `White_Space` property.
pub open spec fn is_white_space(ch: char) -> bool {
    let code = ch as u32;
    ||| 0x09 <= code <= 0x0d
    ||| code == 0x20
    ||| code == 0x85
    ||| code == 0xa0
    ||| code == 0x1680
    ||| 0x2000 <= code <= 0x200a
    ||| code == 0x2028
    ||| code == 0x2029
    ||| code == 0x202f
    ||| code == 0x205f
    ||| code == 0x3000
}

/// Whether the character has Unicode's `White_Space` property.
pub fn white_space(ch: char) -> (white: bool)
    ensures
        white == is_white_space(ch),
{
    let code = ch as u32;
    (0x09 <= code && code <= 0x0d) || code == 0x20 || code == 0x85 || code == 0xa0 || code == 0x1680
        || (0x2000 <= code && code <= 0x200a) || code == 0x2028 || code == 0x2029 || code == 0x202f
        || code == 0x205f || code == 0x3000
}

/// A text of nothing but white space, or of nothing.
pub open spec fn is_blank(text: Seq<char>) -> bool {
    forall|i: int| 0 <= i < text.len() ==> is_white_space(#[trigger] text[i])
}

/// Whether the text is nothing but white space.
pub fn blank(text: &str) -> (res: bool)
    ensures
        res == is_blank(text@),
{
    let chars = chars_of(text);
    let mut at: usize = 0;
    while at < chars.len()
        invariant
            at <= chars@.len(),
            chars@ == text@,
            forall|i: int| 0 <= i < at ==> is_white_space(#[trigger] text@[i]),
        decreases chars.len() - at,
    {
        if !white_space(chars[at]) {
            assert(!is_white_space(text@[at as int]));
            return false;
        }
        at = at + 1;
    }
    true
}

/// The first place at or after `from` that is not white space, or the end.
pub open spec fn word_start(text: Seq<char>, from: int) -> int
    decreases text.len() - from,
{
    if from >= text.len() || !is_white_space(text[from]) {
        from
    } else {
        word_start(text, from + 1)
    }
}

/// The first place at or after `from` that is white space, or the end.
pub open spec fn word_end(text: Seq<char>, from: int) -> int
    decreases text.len() - from,
{
    if from >= text.len() || is_white_space(text[from]) {
        from
    } else {
        word_end(text, from + 1)
    }
}

pub proof fn lemma_word_bounds(text: Seq<char>, from: int)
    requires
        0 <= from <= text.len(),
    ensures
        from <= word_start(text, from) <= text.len(),
        from <= word_end(text, from) <= text.len(),
        forall|i: int| from <= i < word_start(text, from) ==> is_white_space(#[trigger] text[i]),
        forall|i: int| from <= i < word_end(text, from) ==> !is_white_space(#[trigger] text[i]),
        word_start(text, from) < text.len() ==> !is_white_space(text[word_start(text, from)]),
        word_end(text, from) < text.len() ==> is_white_space(text[word_end(text, from)]),
    decreases text.len() - from,
{
    if from < text.len() {
        lemma_word_bounds(text, from + 1);
    }
}

fn find_word_start(chars: &Vec<char>, from: usize) -> (start: usize)
    requires
        from <= chars@.len(),
    ensures
        start == word_start(chars@, from as int),
        from <= start <= chars@.len(),
{
    let mut at: usize = from;
    while at < chars.len() && white_space(chars[at])
        invariant
            from <= at <= chars@.len(),
            word_start(chars@, from as int) == word_start(chars@, at as int),
        decreases chars.len() - at,
    {
        at = at + 1;
    }
    at
}

fn find_word_end(chars: &Vec<char>, from: usize) -> (end: usize)
    requires
        from <= chars@.len(),
    ensures
        end == word_end(chars@, from as int),
        from <= end <= chars@.len(),
{
    let mut at: usize = from;
    while at < chars.len() && !white_space(chars[at])
        invariant
            from <= at <= chars@.len(),
            word_end(chars@, from as int) == word_end(chars@, at as int),
        decreases chars.len() - at,
    {
        at = at + 1;
    }
    at
}

/// The words of the text from `from` on, parted by white space.
pub open spec fn words_from(text: Seq<char>, from: int) -> Seq<Seq<char>>
    decreases text.len() - from,
{
    let start = word_start(text, from);
    let end = word_end(text, start);
    if 0 <= from <= start < end <= text.len() {
        seq![text.subrange(start, end)] + words_from(text, end)
    } else {
        Seq::empty()
    }
}

/// The words of the text: its longest runs without white space, in order.
pub open spec fn words(text: Seq<char>) -> Seq<Seq<char>> {
    words_from(text, 0)
}

/// The words of the text.
pub fn words_of(text: &str) -> (found: Vec<String>)
    ensures
        texts(found@) == words(text@),
{
    let chars = chars_of(text);
    let mut found: Vec<String> = Vec::new();
    let mut at: usize = 0;
    assert(texts(found@) + words_from(text@, 0) =~= words(text@));
    loop
        invariant
            chars@ == text@,
            at <= chars@.len(),
            texts(found@) + words_from(text@, at as int) == words(text@),
        decreases chars@.len() - at,
    {
        let start = find_word_start(&chars, at);
        let end = find_word_end(&chars, start);
        proof {
            lemma_word_bounds(text@, at as int);
            lemma_word_bounds(text@, start as int);
        }
        if start == chars.len() {
            assert(words_from(text@, at as int) =~= Seq::<Seq<char>>::empty());
            assert(texts(found@) =~= words(text@));
            return found;
        }
        let ghost before = texts(found@);
        found.push(string_of(&chars, start, end));
        assert(texts(found@) =~= before.push(text@.subrange(start as int, end as int)));
        assert(texts(found@) + words_from(text@, end as int) =~= before + words_from(
            text@,
            at as int,
        ));
        at = end;
    }
}

/// The text without the white space at its two ends.
pub open spec fn trimmed(text: Seq<char>) -> Seq<char> {
    let start = word_start(text, 0);
    text.subrange(start, trimmed_end(text, start))
}

/// The end of the text from `start` on once the white space before the end is left out.
pub open spec fn trimmed_end(text: Seq<char>, start: int) -> int {
    last_word_end(text, start, text.len() as int)
}

/// The place behind the last character before `end` that is not white space, or `start`.
pub open spec fn last_word_end(text: Seq<char>, start: int, end: int) -> int
    decreases end - start,
{
    if end <= start || !is_white_space(text[end - 1]) {
        end
    } else {
        last_word_end(text, start, end - 1)
    }
}

/// The text without the white space at its two ends.
pub fn trim(text: &str) -> (res: String)
    ensures
        res@ == trimmed(text@),
{
    let chars = chars_of(text);
    let start = find_word_start(&chars, 0);
    let mut end: usize = chars.len();
    while end > start && white_space(chars[end - 1])
        invariant
            start <= end <= chars@.len(),
            last_word_end(chars@, start as int, chars@.len() as int) == last_word_end(
                chars@,
                start as int,
                end as int,
            ),
        decreases end,
    {
        end = end - 1;
    }
    string_of(&chars, start, end)
}

// ---------------------------------------------------------------------------
// Searching
// ---------------------------------------------------------------------------

/// Whether the text begins with the prefix.
pub open spec fn has_prefix(text: Seq<char>, prefix: Seq<char>) -> bool {
    prefix.len() <= text.len() && text.take(prefix.len() as int) == prefix
}

/// Whether the text begins with the prefix.
pub fn starts_with(text: &str, prefix: &str) -> (res: bool)
    ensures
        res == has_prefix(text@, prefix@),
{
    let chars = chars_of(text);
    let start = chars_of(prefix);
    if start.len() > chars.len() {
        return false;
    }
    let mut at: usize = 0;
    while at < start.len()
        invariant
            at <= start@.len() <= chars@.len(),
            chars@ == text@,
            start@ == prefix@,
            forall|i: int| 0 <= i < at ==> text@[i] == prefix@[i],
        decreases start.len() - at,
    {
        if chars[at] != start[at] {
            assert(text@.take(prefix@.len() as int)[at as int] != prefix@[at as int]);
            return false;
        }
        at = at + 1;
    }
    assert(text@.take(prefix@.len() as int) =~= prefix@);
    true
}

/// What follows the prefix, where the text begins with it.
pub open spec fn behind_prefix(text: Seq<char>, prefix: Seq<char>) -> Option<Seq<char>> {
    if has_prefix(text, prefix) {
        Some(text.skip(prefix.len() as int))
    } else {
        None
    }
}

/// What follows the prefix, where the text begins with it.
pub fn strip_prefix(text: &str, prefix: &str) -> (rest: Option<String>)
    ensures
        optional_text(rest) == behind_prefix(text@, prefix@),
{
    if starts_with(text, prefix) {
        let chars = chars_of(text);
        let start = chars_of(prefix);
        let rest = string_of(&chars, start.len(), chars.len());
        assert(rest@ =~= text@.skip(prefix@.len() as int));
        Some(rest)
    } else {
        None
    }
}

/// The first place at or after `from` that holds the character, or the end.
pub open spec fn place_of(text: Seq<char>, ch: char, from: int) -> int
    decreases text.len() - from,
{
    if from >= text.len() || text[from] == ch {
        from
    } else {
        place_of(text, ch, from + 1)
    }
}

pub proof fn lemma_place_of(text: Seq<char>, ch: char, from: int)
    requires
        0 <= from <= text.len(),
    ensures
        from <= place_of(text, ch, from) <= text.len(),
        forall|i: int| from <= i < place_of(text, ch, from) ==> #[trigger] text[i] != ch,
        place_of(text, ch, from) < text.len() ==> text[place_of(text, ch, from)] == ch,
    decreases text.len() - from,
{
    if from < text.len() {
        lemma_place_of(text, ch, from + 1);
    }
}

fn find_char(chars: &Vec<char>, ch: char, from: usize) -> (place: usize)
    requires
        from <= chars@.len(),
    ensures
        place == place_of(chars@, ch, from as int),
        from <= place <= chars@.len(),
{
    let mut at: usize = from;
    while at < chars.len() && chars[at] != ch
        invariant
            from <= at <= chars@.len(),
            place_of(chars@, ch, from as int) == place_of(chars@, ch, at as int),
        decreases chars.len() - at,
    {
        at = at + 1;
    }
    at
}

/// The text up to the first such character, or all of it where there is none.
pub open spec fn before_first(text: Seq<char>, ch: char) -> Seq<char> {
    text.take(place_of(text, ch, 0))
}

/// The text up to the first such character, or all of it where there is none.
pub fn take_before(text: &str, ch: char) -> (res: String)
    ensures
        res@ == before_first(text@, ch),
{
    let chars = chars_of(text);
    let place = find_char(&chars, ch, 0);
    let res = string_of(&chars, 0, place);
    assert(res@ =~= before_first(text@, ch));
    res
}

/// The parts of the text from `from` on that the character separates.
pub open spec fn parts_from(text: Seq<char>, ch: char, from: int) -> Seq<Seq<char>>
    decreases text.len() - from,
{
    let place = place_of(text, ch, from);
    if 0 <= from <= place < text.len() {
        seq![text.subrange(from, place)] + parts_from(text, ch, place + 1)
    } else {
        seq![text.subrange(from, text.len() as int)]
    }
}

/// The parts of the text that the character separates; one more than its occurrences.
pub open spec fn parts(text: Seq<char>, ch: char) -> Seq<Seq<char>> {
    parts_from(text, ch, 0)
}

/// The parts of the text that the character separates.
pub fn split_at_char(text: &str, ch: char) -> (found: Vec<String>)
    ensures
        texts(found@) == parts(text@, ch),
{
    let chars = chars_of(text);
    let mut found: Vec<String> = Vec::new();
    let mut at: usize = 0;
    assert(texts(found@) + parts_from(text@, ch, 0) =~= parts(text@, ch));
    loop
        invariant
            chars@ == text@,
            at <= chars@.len(),
            texts(found@) + parts_from(text@, ch, at as int) == parts(text@, ch),
        decreases chars@.len() - at,
    {
        let place = find_char(&chars, ch, at);
        let ghost before = texts(found@);
        found.push(string_of(&chars, at, place));
        assert(texts(found@) =~= before.push(text@.subrange(at as int, place as int)));
        if place == chars.len() {
            assert(texts(found@) =~= before + parts_from(text@, ch, at as int));
            return found;
        }
        assert(texts(found@) + parts_from(text@, ch, place + 1) =~= before + parts_from(
            text@,
            ch,
            at as int,
        ));
        at = place + 1;
    }
}

/// Whether the pattern stands in the text at that place.
pub open spec fn occurs_at(text: Seq<char>, pattern: Seq<char>, place: int) -> bool {
    &&& 0 <= place
    &&& place + pattern.len() <= text.len()
    &&& text.subrange(place, place + pattern.len()) == pattern
}

/// What follows the last occurrence of the pattern at or before `place`.
pub open spec fn behind_last_from(text: Seq<char>, pattern: Seq<char>, place: int) -> Option<
    Seq<char>,
>
    decreases place + 1,
{
    if place < 0 {
        None
    } else if occurs_at(text, pattern, place) {
        Some(text.skip(place + pattern.len()))
    } else {
        behind_last_from(text, pattern, place - 1)
    }
}

/// What follows the last occurrence of the pattern, where there is one.
pub open spec fn behind_last(text: Seq<char>, pattern: Seq<char>) -> Option<Seq<char>> {
    behind_last_from(text, pattern, text.len() as int)
}

/// What follows the last occurrence of the pattern, where there is one.
pub fn take_behind_last(text: &str, pattern: &str) -> (rest: Option<String>)
    ensures
        optional_text(rest) == behind_last(text@, pattern@),
{
    let chars = chars_of(text);
    let wanted = chars_of(pattern);
    let mut place: usize = chars.len();
    loop
        invariant
            chars@ == text@,
            wanted@ == pattern@,
            place <= chars@.len(),
            behind_last_from(text@, pattern@, place as int) == behind_last(text@, pattern@),
        decreases place,
    {
        if wanted.len() <= chars.len() - place {
            let here = string_of(&chars, place, place + wanted.len());
            if same_text(here.as_str(), pattern) {
                let rest = string_of(&chars, place + wanted.len(), chars.len());
                assert(rest@ =~= text@.skip(place + pattern@.len()));
                return Some(rest);
            }
        }
        assert(!occurs_at(text@, pattern@, place as int));
        if place == 0 {
            assert(behind_last_from(text@, pattern@, -1int) is None);
            return None;
        }
        place = place - 1;
    }
}

// ---------------------------------------------------------------------------
// Lines
// ---------------------------------------------------------------------------

/// A line's text: a carriage return before the line feed belongs to the line's end.
pub open spec fn line_text(line: Seq<char>, ended: bool) -> Seq<char> {
    if ended && line.len() > 0 && line.last() == '\r' {
        line.drop_last()
    } else {
        line
    }
}

/// The lines of the text from `from` on.
pub open spec fn lines_from(text: Seq<char>, from: int) -> Seq<Seq<char>>
    decreases text.len() - from,
{
    let place = place_of(text, '\n', from);
    if !(0 <= from < text.len()) {
        Seq::empty()
    } else if from <= place < text.len() {
        seq![line_text(text.subrange(from, place), true)] + lines_from(text, place + 1)
    } else {
        seq![text.subrange(from, text.len() as int)]
    }
}

/// The lines of the text. The last one needs no line feed behind it.
pub open spec fn lines(text: Seq<char>) -> Seq<Seq<char>> {
    lines_from(text, 0)
}

/// The lines of the text.
pub fn lines_of(text: &str) -> (found: Vec<String>)
    ensures
        texts(found@) == lines(text@),
{
    let chars = chars_of(text);
    let mut found: Vec<String> = Vec::new();
    let mut at: usize = 0;
    assert(texts(found@) + lines_from(text@, 0) =~= lines(text@));
    while at < chars.len()
        invariant
            chars@ == text@,
            at <= chars@.len(),
            texts(found@) + lines_from(text@, at as int) == lines(text@),
        decreases chars@.len() - at,
    {
        let place = find_char(&chars, '\n', at);
        let ghost before = texts(found@);
        let ended = place < chars.len();
        let end = if ended && place > at && chars[place - 1] == '\r' {
            place - 1
        } else {
            place
        };
        found.push(string_of(&chars, at, end));
        proof {
            let line = text@.subrange(at as int, place as int);
            assert(text@.subrange(at as int, end as int) =~= line_text(line, ended));
            assert(texts(found@) =~= before.push(line_text(line, ended)));
        }
        if !ended {
            assert(texts(found@) =~= before + lines_from(text@, at as int));
            return found;
        }
        assert(texts(found@) + lines_from(text@, place + 1) =~= before + lines_from(
            text@,
            at as int,
        ));
        at = place + 1;
    }
    assert(lines_from(text@, at as int) =~= Seq::<Seq<char>>::empty());
    assert(texts(found@) =~= lines(text@));
    found
}

// ---------------------------------------------------------------------------
// Numbers
// ---------------------------------------------------------------------------

/// Whether the character is one of `0` to `9`.
pub open spec fn is_digit(ch: char) -> bool {
    '0' <= ch <= '9'
}

/// The value of a decimal digit.
pub open spec fn digit_value(ch: char) -> nat {
    (ch as u32 - '0' as u32) as nat
}

/// The value of a run of decimal digits.
pub open spec fn digits_value(digits: Seq<char>) -> nat
    decreases digits.len(),
{
    if digits.len() == 0 {
        0
    } else {
        digits_value(digits.drop_last()) * 10 + digit_value(digits.last())
    }
}

/// The number that one or more decimal digits write.
pub open spec fn digits_number(digits: Seq<char>) -> Option<nat> {
    if digits.len() > 0 && (forall|i: int|
        0 <= i < digits.len() ==> is_digit(#[trigger] digits[i])) {
        Some(digits_value(digits))
    } else {
        None
    }
}

/// The number that an unsigned integer's text writes: decimal digits, behind a `+` or nothing.
pub open spec fn unsigned_number(text: Seq<char>) -> Option<nat> {
    if text.len() > 0 && text[0] == '+' {
        digits_number(text.skip(1))
    } else {
        digits_number(text)
    }
}

/// The number that a signed integer's text writes: decimal digits, behind a sign or nothing.
pub open spec fn signed_number(text: Seq<char>) -> Option<int> {
    if text.len() > 0 && text[0] == '-' {
        match digits_number(text.skip(1)) {
            Some(value) => Some(-(value as int)),
            None => None,
        }
    } else {
        match unsigned_number(text) {
            Some(value) => Some(value as int),
            None => None,
        }
    }
}

/// The number that the digits from `from` on write, where it is at most `max`.
fn parse_digits(chars: &Vec<char>, from: usize, max: u64) -> (number: Option<u64>)
    requires
        from <= chars@.len(),
    ensures
        match digits_number(chars@.skip(from as int)) {
            Some(value) => number == (if value <= max {
                Some(value as u64)
            } else {
                None
            }),
            None => number is None,
        },
{
    let ghost digits = chars@.skip(from as int);
    if from == chars.len() {
        return None;
    }
    let mut value: u64 = 0;
    let mut over: bool = false;
    let mut at: usize = from;
    while at < chars.len()
        invariant
            from <= at <= chars@.len(),
            digits == chars@.skip(from as int),
            forall|i: int| 0 <= i < at - from ==> is_digit(#[trigger] digits[i]),
            value <= max,
            over ==> digits_value(digits.take(at - from)) > max,
            !over ==> digits_value(digits.take(at - from)) == value,
        decreases chars.len() - at,
    {
        let ch = chars[at];
        if ch < '0' || ch > '9' {
            assert(!is_digit(digits[at - from]));
            return None;
        }
        let digit: u64 = ch as u64 - '0' as u64;
        proof {
            assert(digits[at - from] == ch);
            let longer = digits.take(at + 1 - from);
            assert(longer.drop_last() =~= digits.take(at - from));
            assert(longer.last() == ch);
        }
        if !over && value <= (max - if digit <= max { digit } else { max }) / 10 && digit <= max {
            value = value * 10 + digit;
        } else {
            over = true;
        }
        at = at + 1;
    }
    assert(digits.take(at - from) =~= digits);
    if over {
        None
    } else {
        Some(value)
    }
}

/// The unsigned integer that the text writes, where it is at most `max`.
pub fn parse_unsigned(text: &str, max: u64) -> (number: Option<u64>)
    ensures
        match unsigned_number(text@) {
            Some(value) => number == (if value <= max {
                Some(value as u64)
            } else {
                None
            }),
            None => number is None,
        },
{
    let chars = chars_of(text);
    if chars.len() > 0 && chars[0] == '+' {
        parse_digits(&chars, 1, max)
    } else {
        assert(chars@.skip(0) =~= text@);
        parse_digits(&chars, 0, max)
    }
}

/// Whether the text writes an unsigned integer above the bound, of whatever size.
pub fn writes_more_than(text: &str, bound: u64) -> (res: bool)
    ensures
        res == (unsigned_number(text@) matches Some(value) && value > bound),
{
    let chars = chars_of(text);
    let from: usize = if chars.len() > 0 && chars[0] == '+' {
        1
    } else {
        0
    };
    let ghost digits = text@.skip(from as int);
    assert(from == 0 ==> digits =~= text@);
    if from == chars.len() {
        return false;
    }
    let mut at: usize = from;
    while at < chars.len()
        invariant
            from <= at <= chars@.len(),
            chars@ == text@,
            digits == text@.skip(from as int),
            from == 1 <==> (text@.len() > 0 && text@[0] == '+'),
            from <= 1,
            from == 0 ==> digits == text@,
            forall|i: int| 0 <= i < at - from ==> is_digit(#[trigger] digits[i]),
        decreases chars.len() - at,
    {
        if chars[at] < '0' || chars[at] > '9' {
            assert(!is_digit(digits[at - from]));
            return false;
        }
        at = at + 1;
    }
    parse_unsigned(text, bound).is_none()
}

/// The signed integer that the text writes, where it fits 32 bits.
pub fn parse_signed(text: &str) -> (number: Option<i32>)
    ensures
        match signed_number(text@) {
            Some(value) => number == (if i32::MIN <= value <= i32::MAX {
                Some(value as i32)
            } else {
                None
            }),
            None => number is None,
        },
{
    let chars = chars_of(text);
    if chars.len() > 0 && chars[0] == '-' {
        match parse_digits(&chars, 1, 0x8000_0000) {
            Some(value) => Some((-(value as i64)) as i32),
            None => None,
        }
    } else {
        match parse_unsigned(text, 0x7fff_ffff) {
            Some(value) => Some(value as i32),
            None => None,
        }
    }
}

/// The decimal digit of a value below ten.
pub open spec fn digit(value: nat) -> char {
    ('0' as u32 + value) as char
}

/// A number written with decimal digits and no leading zero.
pub open spec fn decimal(number: nat) -> Seq<char>
    decreases number,
{
    if number < 10 {
        seq![digit(number)]
    } else {
        decimal(number / 10).push(digit(number % 10))
    }
}

/// The number written with decimal digits.
pub fn decimal_of(number: u64) -> (string: String)
    ensures
        string@ == decimal(number as nat),
    decreases number,
{
    let mut string = if number < 10 {
        String::new()
    } else {
        decimal_of(number / 10)
    };
    let last: u8 = (number % 10) as u8;
    string.push((48u8 + last) as char);
    assert(string@ =~= decimal(number as nat));
    string
}

proof fn lemma_decimal_digits(number: nat)
    ensures
        digits_number(decimal(number)) == Some(number),
    decreases number,
{
    let text = decimal(number);
    if number < 10 {
        assert(text.drop_last() =~= Seq::<char>::empty());
        assert(digits_value(text.drop_last()) == 0);
        assert(is_digit(text[0]));
    } else {
        lemma_decimal_digits(number / 10);
        let shorter = decimal(number / 10);
        assert(text.drop_last() =~= shorter);
        assert forall|i: int| 0 <= i < text.len() implies is_digit(#[trigger] text[i]) by {
            if i < shorter.len() {
                assert(is_digit(shorter[i]));
            }
        }
        assert(digits_value(text) == number / 10 * 10 + number % 10);
    }
}

/// Reading a number's decimal text gives the number back.
pub proof fn decimal_reads_back(number: nat)
    ensures
        unsigned_number(decimal(number)) == Some(number),
{
    lemma_decimal_digits(number);
    assert(is_digit(decimal(number)[0]));
}

// ---------------------------------------------------------------------------
// Letters
// ---------------------------------------------------------------------------

/// A character with an ASCII capital made small.
pub open spec fn lower_char(ch: char) -> char {
    if 'A' <= ch <= 'Z' {
        (ch as u32 + 32) as char
    } else {
        ch
    }
}

/// A text with its ASCII capitals made small.
pub open spec fn lower(text: Seq<char>) -> Seq<char> {
    Seq::new(text.len(), |i: int| lower_char(text[i]))
}

/// The text with its ASCII capitals made small.
pub fn lowercase(text: &str) -> (string: String)
    ensures
        string@ == lower(text@),
{
    let chars = chars_of(text);
    let mut string = String::new();
    let mut at: usize = 0;
    while at < chars.len()
        invariant
            chars@ == text@,
            at <= chars@.len(),
            string@ == lower(text@).take(at as int),
        decreases chars.len() - at,
    {
        let ch = chars[at];
        if ch >= 'A' && ch <= 'Z' {
            string.push((ch as u8 + 32) as char);
        } else {
            string.push(ch);
        }
        at = at + 1;
        assert(string@ =~= lower(text@).take(at as int));
    }
    assert(lower(text@).take(at as int) =~= lower(text@));
    string
}

} // verus!
