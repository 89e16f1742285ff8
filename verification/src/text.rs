//! Text as sequences of characters: trimming, splitting, case folding and decimal numbers.

use vstd::prelude::*;

verus! {

/// `String::push` appends one character to the end of the text.
pub assume_specification[ String::push ](string: &mut String, ch: char)
    ensures
        final(string)@ == old(string)@.push(ch),
;

/// `char::is_whitespace` tells whether a character has the Unicode `White_Space` property. The
/// property's characters are those of [`is_space`].
pub assume_specification[ char::is_whitespace ](c: char) -> (blank: bool)
    ensures
        blank == is_space(c),
;

/// The text that `{:?}` prints for a piece of text: the text in quotes, with its escapes.
pub uninterp spec fn debug_quoted(text: Seq<char>) -> Seq<char>;

/// The text that the standard library prints for a failed `str::parse::<usize>`.
pub uninterp spec fn parse_usize_error(text: Seq<char>) -> Seq<char>;

/// The lowercase mapping of one character.
pub uninterp spec fn lowercase_of(c: char) -> Seq<char>;

/// Formats `text` with `{:?}`. What the escapes look like is left to [`debug_quoted`].
#[verifier::external_body]
pub(crate) fn quoted(text: &str) -> (printed: String)
    ensures
        printed@ == debug_quoted(text@),
{
    format!("{text:?}")
}

/// `str::parse::<usize>`: an optional `+` sign and then decimal digits, whose value must fit in a
/// `usize`. The words of the error are left to [`parse_usize_error`].
#[verifier::external_body]
pub(crate) fn parse_usize(text: &str) -> (parsed: Result<usize, String>)
    ensures
        match parsed {
            Ok(value) => unsigned(text@) == Some(value as nat),
            Err(message) => {
                &&& message@ == parse_usize_error(text@)
                &&& unsigned(text@) matches Some(value) ==> value > usize::MAX
            },
        },
{
    text.parse::<usize>().map_err(|error| error.to_string())
}

/// `char::to_lowercase`: the characters of the lowercase mapping, one or more, in order. On an
/// ASCII character it is the one character that the ASCII mapping gives.
#[verifier::external_body]
pub(crate) fn lowercase(c: char) -> (mapped: Vec<char>)
    ensures
        mapped@ == lowercase_of(c),
        mapped@.len() > 0,
        (c as u32) < 128 ==> mapped@ == seq![ascii_lower(c)],
{
    c.to_lowercase().collect()
}

/// The characters with the Unicode `White_Space` property.
pub open spec fn is_space(c: char) -> bool {
    let code = c as u32;
    ||| 0x9 <= code <= 0xd
    ||| code == 0x20
    ||| code == 0x85
    ||| code == 0xa0
    ||| code == 0x1680
    ||| 0x2000 <= code <= 0x200a
    ||| code == 0x2028
    ||| code == 0x2029
    ||| code == 0x202f
    ||| code == 0x205f
    ||| code == 0x3000
}

pub open spec fn ascii_lower(c: char) -> char {
    if 'A' <= c <= 'Z' {
        ((c as u32) + 32) as char
    } else {
        c
    }
}

pub open spec fn ascii_upper(c: char) -> char {
    if 'a' <= c <= 'z' {
        ((c as u32) - 32) as char
    } else {
        c
    }
}

/// `text` with every ASCII letter in lower case.
pub open spec fn lowered(text: Seq<char>) -> Seq<char> {
    text.map_values(|c: char| ascii_lower(c))
}

/// `text` with every ASCII letter in upper case.
pub open spec fn uppered(text: Seq<char>) -> Seq<char> {
    text.map_values(|c: char| ascii_upper(c))
}

/// The two texts differ at most in the case of ASCII letters.
pub open spec fn same_ignoring_case(a: Seq<char>, b: Seq<char>) -> bool {
    lowered(a) == lowered(b)
}

pub open spec fn skip_leading_space(text: Seq<char>) -> Seq<char>
    decreases text.len(),
{
    if text.len() > 0 && is_space(text[0]) {
        skip_leading_space(text.subrange(1, text.len() as int))
    } else {
        text
    }
}

pub open spec fn skip_trailing_space(text: Seq<char>) -> Seq<char>
    decreases text.len(),
{
    if text.len() > 0 && is_space(text.last()) {
        skip_trailing_space(text.drop_last())
    } else {
        text
    }
}

/// `text` without the white space at its two ends.
pub open spec fn trim(text: Seq<char>) -> Seq<char> {
    skip_trailing_space(skip_leading_space(text))
}

/// The pieces of `text` between the occurrences of `separator`, the empty ones included.
pub open spec fn split(text: Seq<char>, separator: char) -> Seq<Seq<char>>
    decreases text.len(),
{
    if text.len() == 0 {
        seq![Seq::empty()]
    } else {
        let before = split(text.drop_last(), separator);
        if text.last() == separator {
            before.push(Seq::empty())
        } else {
            before.update(before.len() - 1, before.last().push(text.last()))
        }
    }
}

/// The texts one after the other, with `separator` between them.
pub open spec fn joined(texts: Seq<Seq<char>>, separator: char) -> Seq<char>
    decreases texts.len(),
{
    if texts.len() == 0 {
        Seq::empty()
    } else if texts.len() == 1 {
        texts[0]
    } else {
        joined(texts.drop_last(), separator) + seq![separator] + texts.last()
    }
}

/// The views of several texts.
pub open spec fn views(texts: Seq<String>) -> Seq<Seq<char>> {
    texts.map_values(|text: String| text@)
}

pub open spec fn is_digit(c: char) -> bool {
    '0' <= c <= '9'
}

pub open spec fn is_letter(c: char) -> bool {
    'a' <= c <= 'z' || 'A' <= c <= 'Z'
}

pub open spec fn digit_value(c: char) -> nat {
    ((c as u32) - ('0' as u32)) as nat
}

pub open spec fn digit_char(value: nat) -> char {
    (('0' as u32) + value) as char
}

pub open spec fn all_digits(text: Seq<char>) -> bool {
    forall|i: int| 0 <= i < text.len() ==> is_digit(#[trigger] text[i])
}

/// The number that a sequence of decimal digits writes.
pub open spec fn digits_value(text: Seq<char>) -> nat
    decreases text.len(),
{
    if text.len() == 0 {
        0
    } else {
        digits_value(text.drop_last()) * 10 + digit_value(text.last())
    }
}

/// The number that `text` writes as an optional `+` sign and decimal digits.
pub open spec fn unsigned(text: Seq<char>) -> Option<nat> {
    let body = if text.len() > 0 && text[0] == '+' {
        text.subrange(1, text.len() as int)
    } else {
        text
    };
    if body.len() > 0 && all_digits(body) {
        Some(digits_value(body))
    } else {
        None
    }
}

/// The decimal digits of `value`, without leading zeros.
pub open spec fn decimal(value: nat) -> Seq<char>
    decreases value,
{
    if value < 10 {
        seq![digit_char(value)]
    } else {
        decimal(value / 10).push(digit_char(value % 10))
    }
}

pub open spec fn hex_char(value: nat) -> char {
    if value < 10 {
        digit_char(value)
    } else {
        (('a' as u32) + value - 10) as char
    }
}

/// The lower-case hexadecimal digits of `value`, without leading zeros.
pub open spec fn hexadecimal(value: nat) -> Seq<char>
    decreases value,
{
    if value < 16 {
        seq![hex_char(value)]
    } else {
        hexadecimal(value / 16).push(hex_char(value % 16))
    }
}

pub open spec fn begins_with(text: Seq<char>, prefix: Seq<char>) -> bool {
    prefix.len() <= text.len() && text.subrange(0, prefix.len() as int) == prefix
}

pub open spec fn finishes_with(text: Seq<char>, suffix: Seq<char>) -> bool {
    suffix.len() <= text.len() && text.subrange(text.len() - suffix.len(), text.len() as int)
        == suffix
}

/// `part` stands in `text` from position `at` on.
pub open spec fn occurs_at(text: Seq<char>, part: Seq<char>, at: int) -> bool {
    0 <= at && at + part.len() <= text.len() && text.subrange(at, at + part.len()) == part
}

pub open spec fn contains_part(text: Seq<char>, part: Seq<char>) -> bool {
    exists|at: int| occurs_at(text, part, at)
}

/// What follows `prefix`, where `text` begins with it.
pub open spec fn after_prefix(text: Seq<char>, prefix: Seq<char>) -> Option<Seq<char>> {
    if begins_with(text, prefix) {
        Some(text.subrange(prefix.len() as int, text.len() as int))
    } else {
        None
    }
}

/// What stands before `suffix`, where `text` ends with it.
pub open spec fn before_suffix(text: Seq<char>, suffix: Seq<char>) -> Option<Seq<char>> {
    if finishes_with(text, suffix) {
        Some(text.subrange(0, text.len() - suffix.len()))
    } else {
        None
    }
}

/// The number that `text` writes, where it fits in 32 bits.
pub open spec fn unsigned_32(text: Seq<char>) -> Option<u32> {
    match unsigned(text) {
        Some(value) => if value <= u32::MAX {
            Some(value as u32)
        } else {
            None
        },
        None => None,
    }
}

/// `word` stands in `text` between white space or the ends of the text.
pub open spec fn has_word_at(text: Seq<char>, word: Seq<char>, at: int) -> bool {
    &&& occurs_at(text, word, at)
    &&& at == 0 || is_space(text[at - 1])
    &&& at + word.len() == text.len() || is_space(text[at + word.len()])
}

/// One of the words of `text` is `word`.
pub open spec fn has_word(text: Seq<char>, word: Seq<char>) -> bool {
    exists|at: int| has_word_at(text, word, at)
}

/// A line without the carriage return at its end.
pub open spec fn without_return(line: Seq<char>) -> Seq<char> {
    if line.len() > 0 && line.last() == '\r' {
        line.drop_last()
    } else {
        line
    }
}

/// The lines of `text`: a line ends with a line feed, or a carriage return and a line feed, and
/// the last one needs neither.
pub open spec fn lines(text: Seq<char>) -> Seq<Seq<char>> {
    let pieces = split(text, '\n');
    let ended = pieces.drop_last().map_values(|line: Seq<char>| without_return(line));
    if pieces.last().len() == 0 {
        ended
    } else {
        ended.push(pieces.last())
    }
}

/// `text` without the line feeds at its end.
pub open spec fn skip_trailing_feeds(text: Seq<char>) -> Seq<char>
    decreases text.len(),
{
    if text.len() > 0 && text.last() == '\n' {
        skip_trailing_feeds(text.drop_last())
    } else {
        text
    }
}

/// A number is read back from the digits it is written with.
pub proof fn lemma_decimal_round_trip(value: nat)
    ensures
        unsigned(decimal(value)) == Some(value),
        all_digits(decimal(value)),
        decimal(value).len() > 0,
        digits_value(decimal(value)) == value,
    decreases value,
{
    let text = decimal(value);
    if value < 10 {
        assert(text.drop_last() =~= Seq::<char>::empty());
        assert(digits_value(Seq::<char>::empty()) == 0);
        assert(digit_value(digit_char(value)) == value);
    } else {
        lemma_decimal_round_trip(value / 10);
        assert(text.drop_last() =~= decimal(value / 10));
        assert(text.last() == digit_char(value % 10));
        assert(digit_value(digit_char(value % 10)) == value % 10);
    }
    assert(all_digits(text));
    assert(is_digit(text[0]));
}

/// A split always has a piece, and no piece holds the separator.
pub proof fn lemma_split_pieces(text: Seq<char>, separator: char)
    ensures
        split(text, separator).len() > 0,
        forall|i: int|
            0 <= i < split(text, separator).len() ==> !(#[trigger] split(text, separator)[i]).contains(
                separator,
            ),
    decreases text.len(),
{
    if text.len() > 0 {
        let before = split(text.drop_last(), separator);
        lemma_split_pieces(text.drop_last(), separator);
        let pieces = split(text, separator);
        assert forall|i: int| 0 <= i < pieces.len() implies !(#[trigger] pieces[i]).contains(
            separator,
        ) by {
            if text.last() != separator && i == before.len() - 1 {
                let longer = before.last().push(text.last());
                assert(pieces[i] == longer);
                if longer.contains(separator) {
                    let k = choose|k: int| 0 <= k < longer.len() && longer[k] == separator;
                    assert(before.last()[k] == separator);
                    assert(before[i].contains(separator));
                }
            } else if i < before.len() {
                assert(pieces[i] == before[i]);
            }
        }
    }
}

/// A text without the separator is one piece.
pub proof fn lemma_split_whole(text: Seq<char>, separator: char)
    requires
        !text.contains(separator),
    ensures
        split(text, separator) == seq![text],
    decreases text.len(),
{
    if text.len() > 0 {
        let shorter = text.drop_last();
        assert forall|i: int| 0 <= i < shorter.len() implies shorter[i] != separator by {
            assert(text[i] == shorter[i]);
        }
        lemma_split_whole(shorter, separator);
        assert(text.last() == text[text.len() - 1]);
        assert(shorter.push(text.last()) =~= text);
        assert(split(text, separator) =~= seq![text]);
    } else {
        assert(text =~= Seq::empty());
    }
}

/// What follows a separator, and holds none itself, is one more piece.
pub proof fn lemma_split_append(text: Seq<char>, separator: char, tail: Seq<char>)
    requires
        !tail.contains(separator),
    ensures
        split(text + seq![separator] + tail, separator) == split(text, separator).push(tail),
    decreases tail.len(),
{
    let whole = text + seq![separator] + tail;
    lemma_split_pieces(text, separator);
    if tail.len() == 0 {
        assert(whole.drop_last() =~= text);
        assert(tail =~= Seq::empty());
    } else {
        let shorter = tail.drop_last();
        assert forall|i: int| 0 <= i < shorter.len() implies shorter[i] != separator by {
            assert(tail[i] == shorter[i]);
        }
        lemma_split_append(text, separator, shorter);
        assert(whole.drop_last() =~= text + seq![separator] + shorter);
        assert(tail.last() == tail[tail.len() - 1]);
        assert(shorter.push(tail.last()) =~= tail);
        let before = split(whole.drop_last(), separator);
        assert(before.last() == shorter);
        assert(split(whole, separator) =~= split(text, separator).push(tail));
    }
}

/// Splitting gives back what was joined, if none of the texts holds the separator.
pub proof fn lemma_split_joined(texts: Seq<Seq<char>>, separator: char)
    requires
        texts.len() > 0,
        forall|i: int| 0 <= i < texts.len() ==> !(#[trigger] texts[i]).contains(separator),
    ensures
        split(joined(texts, separator), separator) == texts,
    decreases texts.len(),
{
    assert(!texts[texts.len() - 1].contains(separator));
    if texts.len() == 1 {
        lemma_split_whole(texts[0], separator);
        assert(texts =~= seq![texts[0]]);
    } else {
        let shorter = texts.drop_last();
        assert forall|i: int| 0 <= i < shorter.len() implies !(#[trigger] shorter[i]).contains(
            separator,
        ) by {
            assert(texts[i] == shorter[i]);
        }
        lemma_split_joined(shorter, separator);
        lemma_split_append(joined(shorter, separator), separator, texts.last());
        assert(shorter.push(texts.last()) =~= texts);
    }
}

/// Texts that begin and end without white space make a text that does.
pub proof fn lemma_joined_ends(texts: Seq<Seq<char>>, separator: char)
    requires
        texts.len() > 0,
        forall|i: int|
            0 <= i < texts.len() ==> (#[trigger] texts[i]).len() > 0 && !is_space(texts[i][0])
                && !is_space(texts[i].last()),
    ensures
        joined(texts, separator).len() > 0,
        !is_space(joined(texts, separator)[0]),
        !is_space(joined(texts, separator).last()),
    decreases texts.len(),
{
    if texts.len() > 1 {
        let shorter = texts.drop_last();
        assert forall|i: int| 0 <= i < shorter.len() implies (#[trigger] shorter[i]).len() > 0
            && !is_space(shorter[i][0]) && !is_space(shorter[i].last()) by {
            assert(texts[i] == shorter[i]);
        }
        lemma_joined_ends(shorter, separator);
        let whole = joined(texts, separator);
        assert(whole[0] == joined(shorter, separator)[0]);
        assert(texts.last() == texts[texts.len() - 1]);
        assert(whole.last() == texts.last().last());
    } else {
        assert(texts[0].len() > 0);
    }
}

/// A text that neither begins nor ends with white space is its own trimmed text.
pub proof fn lemma_trim_fixed(text: Seq<char>)
    requires
        text.len() > 0 ==> !is_space(text[0]) && !is_space(text.last()),
    ensures
        trim(text) == text,
{
}

/// A trimmed text neither begins nor ends with white space.
pub proof fn lemma_trim_trims(text: Seq<char>)
    ensures
        trim(text).len() > 0 ==> !is_space(trim(text)[0]) && !is_space(trim(text).last()),
{
    lemma_leading_trimmed(text);
    lemma_trailing_trimmed(skip_leading_space(text));
}

proof fn lemma_leading_trimmed(text: Seq<char>)
    ensures
        skip_leading_space(text).len() > 0 ==> !is_space(skip_leading_space(text)[0]),
    decreases text.len(),
{
    if text.len() > 0 && is_space(text[0]) {
        lemma_leading_trimmed(text.subrange(1, text.len() as int));
    }
}

proof fn lemma_trailing_trimmed(text: Seq<char>)
    ensures
        skip_trailing_space(text).len() > 0 ==> !is_space(skip_trailing_space(text).last())
            && skip_trailing_space(text)[0] == text[0],
    decreases text.len(),
{
    if text.len() > 0 && is_space(text.last()) {
        lemma_trailing_trimmed(text.drop_last());
    }
}

/// The characters of `text`.
pub fn characters(text: &str) -> (chars: Vec<char>)
    ensures
        chars@ == text@,
{
    let mut chars: Vec<char> = Vec::new();
    for c in it: text.chars()
        invariant
            it.seq() == text@,
            chars@ == text@.subrange(0, it.index() as int),
    {
        chars.push(c);
        assert(text@.subrange(0, it.index() as int + 1) =~= text@.subrange(
            0,
            it.index() as int,
        ).push(c));
    }
    assert(text@.subrange(0, text@.len() as int) =~= text@);
    chars
}

/// The text made of `chars[from..to]`.
pub fn text_between(chars: &Vec<char>, from: usize, to: usize) -> (text: String)
    requires
        from <= to <= chars@.len(),
    ensures
        text@ == chars@.subrange(from as int, to as int),
{
    let mut text = String::new();
    let mut i: usize = from;
    while i < to
        invariant
            from <= i <= to <= chars@.len(),
            text@ == chars@.subrange(from as int, i as int),
        decreases to - i,
    {
        text.push(chars[i]);
        i = i + 1;
        assert(text@ =~= chars@.subrange(from as int, i as int));
    }
    text
}

/// The text made of `chars`.
pub fn text_of(chars: &Vec<char>) -> (text: String)
    ensures
        text@ == chars@,
{
    let text = text_between(chars, 0, chars.len());
    assert(chars@.subrange(0, chars@.len() as int) =~= chars@);
    text
}

/// Tells whether two texts are equal.
pub fn same_text(a: &str, b: &str) -> (same: bool)
    ensures
        same == (a@ == b@),
{
    let left = characters(a);
    let right = characters(b);
    if left.len() != right.len() {
        return false;
    }
    let mut i: usize = 0;
    while i < left.len()
        invariant
            i <= left@.len(),
            left@.len() == right@.len(),
            left@ == a@,
            right@ == b@,
            forall|k: int| 0 <= k < i ==> left@[k] == right@[k],
        decreases left@.len() - i,
    {
        if left[i] != right[i] {
            return false;
        }
        i = i + 1;
    }
    assert(a@ =~= b@);
    true
}

pub fn to_ascii_lower(c: char) -> (low: char)
    ensures
        low == ascii_lower(c),
{
    if 'A' <= c && c <= 'Z' {
        (c as u8 + 32) as char
    } else {
        c
    }
}

pub fn to_ascii_upper(c: char) -> (up: char)
    ensures
        up == ascii_upper(c),
{
    if 'a' <= c && c <= 'z' {
        (c as u8 - 32) as char
    } else {
        c
    }
}

/// `text` with every ASCII letter in lower case, as characters.
pub fn lowered_characters(text: &str) -> (chars: Vec<char>)
    ensures
        chars@ == lowered(text@),
{
    let source = characters(text);
    let mut chars: Vec<char> = Vec::new();
    let mut i: usize = 0;
    while i < source.len()
        invariant
            i <= source@.len(),
            source@ == text@,
            chars@ == lowered(text@.subrange(0, i as int)),
        decreases source@.len() - i,
    {
        chars.push(to_ascii_lower(source[i]));
        i = i + 1;
        assert(chars@ =~= lowered(text@.subrange(0, i as int)));
    }
    assert(text@.subrange(0, text@.len() as int) =~= text@);
    chars
}

/// `text` with every ASCII letter in upper case.
pub fn uppered_text(text: &str) -> (upper: String)
    ensures
        upper@ == uppered(text@),
{
    let source = characters(text);
    let mut upper = String::new();
    let mut i: usize = 0;
    while i < source.len()
        invariant
            i <= source@.len(),
            source@ == text@,
            upper@ == uppered(text@.subrange(0, i as int)),
        decreases source@.len() - i,
    {
        upper.push(to_ascii_upper(source[i]));
        i = i + 1;
        assert(upper@ =~= uppered(text@.subrange(0, i as int)));
    }
    assert(text@.subrange(0, text@.len() as int) =~= text@);
    upper
}

/// Tells whether two texts differ at most in the case of ASCII letters.
pub fn equal_ignoring_case(a: &str, b: &str) -> (same: bool)
    ensures
        same == same_ignoring_case(a@, b@),
{
    let left = lowered_characters(a);
    let right = lowered_characters(b);
    same_text(text_of(&left).as_str(), text_of(&right).as_str())
}

/// `text` without the white space at its two ends.
pub fn trimmed(text: &str) -> (inner: String)
    ensures
        inner@ == trim(text@),
{
    let chars = characters(text);
    let mut from: usize = 0;
    assert(chars@.subrange(0, chars@.len() as int) =~= chars@);
    while from < chars.len() && chars[from].is_whitespace()
        invariant
            from <= chars@.len(),
            skip_leading_space(chars@) == skip_leading_space(
                chars@.subrange(from as int, chars@.len() as int),
            ),
        decreases chars@.len() - from,
    {
        assert(chars@.subrange(from as int, chars@.len() as int).subrange(
            1,
            chars@.len() - from,
        ) =~= chars@.subrange(from + 1, chars@.len() as int));
        from = from + 1;
    }
    let ghost rest = chars@.subrange(from as int, chars@.len() as int);
    assert(skip_leading_space(chars@) == rest);
    let mut to: usize = chars.len();
    while to > from && chars[to - 1].is_whitespace()
        invariant
            from <= to <= chars@.len(),
            skip_trailing_space(rest) == skip_trailing_space(
                chars@.subrange(from as int, to as int),
            ),
        decreases to,
    {
        assert(chars@.subrange(from as int, to as int).drop_last() =~= chars@.subrange(
            from as int,
            to - 1,
        ));
        to = to - 1;
    }
    assert(skip_trailing_space(chars@.subrange(from as int, to as int)) == chars@.subrange(
        from as int,
        to as int,
    ));
    text_between(&chars, from, to)
}

/// The pieces of `text` between the occurrences of `separator`, the empty ones included.
pub fn pieces(text: &str, separator: char) -> (parts: Vec<String>)
    ensures
        views(parts@) == split(text@, separator),
        parts@.len() > 0,
{
    let chars = characters(text);
    let mut parts: Vec<String> = Vec::new();
    let mut current: String = String::new();
    let mut i: usize = 0;
    proof {
        assert(chars@.subrange(0, 0) =~= Seq::<char>::empty());
        assert(views(parts@).push(current@) =~= split(chars@.subrange(0, 0), separator));
    }
    while i < chars.len()
        invariant
            i <= chars@.len(),
            views(parts@).push(current@) == split(chars@.subrange(0, i as int), separator),
        decreases chars@.len() - i,
    {
        let c = chars[i];
        let ghost before = views(parts@).push(current@);
        assert(chars@.subrange(0, i + 1).drop_last() =~= chars@.subrange(0, i as int));
        if c == separator {
            let done = current;
            current = String::new();
            parts.push(done);
            assert(views(parts@) =~= before);
            assert(views(parts@).push(current@) =~= split(chars@.subrange(0, i + 1), separator));
        } else {
            current.push(c);
            assert(views(parts@).push(current@) =~= split(chars@.subrange(0, i + 1), separator));
        }
        i = i + 1;
    }
    assert(chars@.subrange(0, chars@.len() as int) =~= chars@);
    let ghost done = views(parts@).push(current@);
    parts.push(current);
    assert(views(parts@) =~= done);
    parts
}

/// Tells whether `part` stands in `text` from position `at` on.
pub fn stands_at(text: &Vec<char>, part: &Vec<char>, at: usize) -> (found: bool)
    ensures
        found == occurs_at(text@, part@, at as int),
{
    if at > text.len() || part.len() > text.len() - at {
        return false;
    }
    let mut i: usize = 0;
    while i < part.len()
        invariant
            i <= part@.len(),
            at + part.len() <= text.len(),
            forall|k: int| 0 <= k < i ==> text@[at + k] == part@[k],
        decreases part@.len() - i,
    {
        if text[at + i] != part[i] {
            assert(text@.subrange(at as int, at + part@.len())[i as int] != part@[i as int]);
            return false;
        }
        i = i + 1;
    }
    assert(text@.subrange(at as int, at + part@.len()) =~= part@);
    true
}

/// The first position at which `part` stands in `text`.
pub fn find_part(text: &Vec<char>, part: &Vec<char>) -> (found: Option<usize>)
    ensures
        match found {
            Some(at) => occurs_at(text@, part@, at as int) && forall|k: int|
                0 <= k < at ==> !occurs_at(text@, part@, k),
            None => !contains_part(text@, part@),
        },
{
    let mut at: usize = 0;
    while at < text.len()
        invariant
            at <= text@.len(),
            forall|k: int| 0 <= k < at ==> !occurs_at(text@, part@, k),
        decreases text@.len() - at,
    {
        if stands_at(text, part, at) {
            return Some(at);
        }
        at = at + 1;
    }
    if stands_at(text, part, at) {
        return Some(at);
    }
    None
}

/// Tells whether `part` stands anywhere in `text`.
pub fn has_part(text: &Vec<char>, part: &Vec<char>) -> (found: bool)
    ensures
        found == contains_part(text@, part@),
{
    find_part(text, part).is_some()
}

pub fn has_prefix(text: &str, prefix: &str) -> (found: bool)
    ensures
        found == begins_with(text@, prefix@),
{
    stands_at(&characters(text), &characters(prefix), 0)
}

pub fn has_suffix(text: &str, suffix: &str) -> (found: bool)
    ensures
        found == finishes_with(text@, suffix@),
{
    let chars = characters(text);
    let tail = characters(suffix);
    if tail.len() > chars.len() {
        return false;
    }
    stands_at(&chars, &tail, chars.len() - tail.len())
}

/// What follows `prefix`, where `text` begins with it.
pub fn strip_start(text: &str, prefix: &str) -> (rest: Option<String>)
    ensures
        match rest {
            Some(rest) => after_prefix(text@, prefix@) == Some(rest@),
            None => after_prefix(text@, prefix@) is None,
        },
{
    let chars = characters(text);
    let head = characters(prefix);
    if stands_at(&chars, &head, 0) {
        Some(text_between(&chars, head.len(), chars.len()))
    } else {
        None
    }
}

/// What stands before `suffix`, where `text` ends with it.
pub fn strip_end(text: &str, suffix: &str) -> (rest: Option<String>)
    ensures
        match rest {
            Some(rest) => before_suffix(text@, suffix@) == Some(rest@),
            None => before_suffix(text@, suffix@) is None,
        },
{
    let chars = characters(text);
    let tail = characters(suffix);
    if tail.len() <= chars.len() && stands_at(&chars, &tail, chars.len() - tail.len()) {
        Some(text_between(&chars, 0, chars.len() - tail.len()))
    } else {
        None
    }
}

/// The number that `text` writes, where it fits in 32 bits.
pub fn number_32(text: &str) -> (number: Option<u32>)
    ensures
        number == unsigned_32(text@),
{
    match parse_usize(text) {
        Ok(value) => if value <= u32::MAX as usize {
            Some(value as u32)
        } else {
            None
        },
        Err(_) => None,
    }
}

fn word_stands_at(text: &Vec<char>, word: &Vec<char>, at: usize) -> (found: bool)
    ensures
        found == has_word_at(text@, word@, at as int),
{
    if !stands_at(text, word, at) {
        return false;
    }
    assert(at + word.len() <= text.len());
    let end: usize = at + word.len();
    (at == 0 || text[at - 1].is_whitespace()) && (end == text.len() || text[end].is_whitespace())
}

/// Tells whether one of the words of `text` is `word`.
pub fn names_word(text: &str, word: &str) -> (found: bool)
    ensures
        found == has_word(text@, word@),
{
    let chars = characters(text);
    let wanted = characters(word);
    let mut at: usize = 0;
    while at < chars.len()
        invariant
            at <= chars@.len(),
            chars@ == text@,
            wanted@ == word@,
            forall|k: int| 0 <= k < at ==> !has_word_at(text@, word@, k),
        decreases chars@.len() - at,
    {
        if word_stands_at(&chars, &wanted, at) {
            return true;
        }
        at = at + 1;
    }
    word_stands_at(&chars, &wanted, at)
}

/// The lines of `text`.
pub fn lines_of(text: &str) -> (found: Vec<String>)
    ensures
        views(found@) == lines(text@),
{
    let parts = pieces(text, '\n');
    proof {
        lemma_split_pieces(text@, '\n');
    }
    let ghost all = split(text@, '\n');
    let ghost ended = all.drop_last().map_values(|line: Seq<char>| without_return(line));
    let last: usize = parts.len() - 1;
    let mut found: Vec<String> = Vec::new();
    let mut i: usize = 0;
    assert(views(found@) =~= ended.subrange(0, 0));
    while i < last
        invariant
            i <= last,
            last + 1 == parts@.len(),
            views(parts@) == all,
            ended == all.drop_last().map_values(|line: Seq<char>| without_return(line)),
            views(found@) == ended.subrange(0, i as int),
        decreases last - i,
    {
        let chars = characters(parts[i].as_str());
        assert(all[i as int] == parts@[i as int]@);
        let length: usize = if chars.len() > 0 && chars[chars.len() - 1] == '\r' {
            chars.len() - 1
        } else {
            chars.len()
        };
        let line = text_between(&chars, 0, length);
        assert(line@ =~= without_return(all[i as int]));
        let ghost longer = views(found@).push(line@);
        found.push(line);
        assert(views(found@) =~= longer);
        assert(ended.subrange(0, i + 1) =~= ended.subrange(0, i as int).push(ended[i as int]));
        i = i + 1;
    }
    assert(ended.subrange(0, last as int) =~= ended);
    assert(all.last() == parts@[last as int]@);
    if !parts[last].as_str().is_empty() {
        let ghost longer = views(found@).push(all.last());
        found.push(parts[last].clone());
        assert(views(found@) =~= longer);
    }
    found
}

/// `text` without the line feeds at its end.
pub fn without_feeds(text: &str) -> (shorter: String)
    ensures
        shorter@ == skip_trailing_feeds(text@),
{
    let chars = characters(text);
    let mut end: usize = chars.len();
    assert(text@.subrange(0, end as int) =~= text@);
    while end > 0 && chars[end - 1] == '\n'
        invariant
            end <= chars@.len(),
            chars@ == text@,
            skip_trailing_feeds(text@) == skip_trailing_feeds(text@.subrange(0, end as int)),
        decreases end,
    {
        assert(text@.subrange(0, end as int).drop_last() =~= text@.subrange(0, end - 1));
        end = end - 1;
    }
    text_between(&chars, 0, end)
}

/// The decimal digits of `value`.
pub fn decimal_characters(value: u64) -> (chars: Vec<char>)
    ensures
        chars@ == decimal(value as nat),
    decreases value,
{
    if value < 10 {
        let mut chars: Vec<char> = Vec::new();
        chars.push((48u8 + value as u8) as char);
        assert(chars@ =~= decimal(value as nat));
        chars
    } else {
        let mut chars = decimal_characters(value / 10);
        chars.push((48u8 + (value % 10) as u8) as char);
        chars
    }
}

pub fn decimal_text(value: u64) -> (text: String)
    ensures
        text@ == decimal(value as nat),
{
    text_of(&decimal_characters(value))
}

/// The lower-case hexadecimal digits of `value`.
pub fn hexadecimal_characters(value: u64) -> (chars: Vec<char>)
    ensures
        chars@ == hexadecimal(value as nat),
    decreases value,
{
    let digit: u8 = (value % 16) as u8;
    let last: char = if digit < 10 {
        (48u8 + digit) as char
    } else {
        (97u8 + (digit - 10)) as char
    };
    if value < 16 {
        let mut chars: Vec<char> = Vec::new();
        chars.push(last);
        assert(chars@ =~= hexadecimal(value as nat));
        chars
    } else {
        let mut chars = hexadecimal_characters(value / 16);
        chars.push(last);
        chars
    }
}

/// Appends `part` to `text`.
pub fn append(text: &mut String, part: &str)
    ensures
        final(text)@ == old(text)@ + part@,
{
    let chars = characters(part);
    let mut i: usize = 0;
    let ghost start = text@;
    while i < chars.len()
        invariant
            i <= chars@.len(),
            chars@ == part@,
            text@ == start + part@.subrange(0, i as int),
        decreases chars@.len() - i,
    {
        text.push(chars[i]);
        i = i + 1;
        assert(text@ =~= start + part@.subrange(0, i as int));
    }
    assert(part@.subrange(0, part@.len() as int) =~= part@);
}

/// The texts one after the other, with `separator` between them.
pub fn join(texts: &Vec<String>, separator: char) -> (text: String)
    ensures
        text@ == joined(views(texts@), separator),
{
    if texts.len() == 0 {
        return String::new();
    }
    let mut text = texts[0].as_str().to_owned();
    let mut i: usize = 1;
    assert(views(texts@).take(1)[0] == texts@[0]@);
    while i < texts.len()
        invariant
            1 <= i <= texts@.len(),
            text@ == joined(views(texts@).take(i as int), separator),
        decreases texts@.len() - i,
    {
        let ghost before = text@;
        text.push(separator);
        append(&mut text, texts[i].as_str());
        i = i + 1;
        let ghost done = views(texts@).take(i as int);
        assert(done.drop_last() =~= views(texts@).take(i - 1));
        assert(done.last() == texts@[i - 1]@);
        assert(text@ =~= before + seq![separator] + texts@[i - 1]@);
    }
    assert(views(texts@).take(i as int) =~= views(texts@));
    text
}

} // verus!
