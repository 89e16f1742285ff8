//! What holds of texts, numbers, bytes and wide characters, and of how affinity expressions are
//! read.

use vstd::prelude::*;

use crate::affinity;
use crate::affinity::{AffinityExpression, AffinityPolicy, AffinityTerm};
use crate::bytes;
use crate::bytes::ByteOrder;
use crate::cgroup_laws;
use crate::text;
use crate::wide;

verus! {

/// A trimmed text is what is left without the white space at the two ends: it neither begins nor
/// ends with any, and nothing else is lost.
pub proof fn law_only_outer_space_is_trimmed(value: &str, inner: String)
    requires
        call_ensures(text::trimmed, (value,), inner),
    ensures
        inner@.len() > 0 ==> !text::is_space(inner@[0]) && !text::is_space(inner@.last()),
        exists|from: int, to: int|
            #![trigger value@.subrange(from, to)]
            0 <= from <= to <= value@.len() && inner@ == value@.subrange(from, to) && (forall|i: int|
                0 <= i < from ==> text::is_space(#[trigger] value@[i])) && (forall|i: int|
                to <= i < value@.len() ==> text::is_space(#[trigger] value@[i])),
{
    text::lemma_trim_trims(value@);
    lemma_leading(value@);
    let rest = text::skip_leading_space(value@);
    lemma_trailing(rest);
    let from = value@.len() - rest.len();
    let to = from + text::trim(value@).len();
    assert(text::trim(value@) =~= value@.subrange(from, to));
    assert forall|i: int| to <= i < value@.len() implies text::is_space(#[trigger] value@[i]) by {
        assert(rest[i - from] == value@[i]);
    }
}

proof fn lemma_leading(value: Seq<char>)
    ensures
        text::skip_leading_space(value).len() <= value.len(),
        text::skip_leading_space(value) == value.subrange(
            value.len() - text::skip_leading_space(value).len(),
            value.len() as int,
        ),
        forall|i: int|
            0 <= i < value.len() - text::skip_leading_space(value).len() ==> text::is_space(
                #[trigger] value[i],
            ),
    decreases value.len(),
{
    let rest = text::skip_leading_space(value);
    if value.len() > 0 && text::is_space(value[0]) {
        let shorter = value.subrange(1, value.len() as int);
        lemma_leading(shorter);
        assert(rest =~= value.subrange(value.len() - rest.len(), value.len() as int));
        assert forall|i: int| 0 <= i < value.len() - rest.len() implies text::is_space(
            #[trigger] value[i],
        ) by {
            if i > 0 {
                assert(shorter[i - 1] == value[i]);
            }
        }
    } else {
        assert(value =~= value.subrange(0, value.len() as int));
    }
}

proof fn lemma_trailing(value: Seq<char>)
    ensures
        text::skip_trailing_space(value).len() <= value.len(),
        text::skip_trailing_space(value) == value.subrange(
            0,
            text::skip_trailing_space(value).len() as int,
        ),
        forall|i: int|
            text::skip_trailing_space(value).len() <= i < value.len() ==> text::is_space(
                #[trigger] value[i],
            ),
    decreases value.len(),
{
    let rest = text::skip_trailing_space(value);
    if value.len() > 0 && text::is_space(value.last()) {
        let shorter = value.drop_last();
        lemma_trailing(shorter);
        assert(rest =~= value.subrange(0, rest.len() as int));
        assert forall|i: int| rest.len() <= i < value.len() implies text::is_space(
            #[trigger] value[i],
        ) by {
            if i < shorter.len() {
                assert(shorter[i] == value[i]);
            }
        }
    } else {
        assert(value =~= value.subrange(0, value.len() as int));
    }
}

/// The pieces of a text, joined by the separator, are the text, and no piece holds the separator.
pub proof fn law_pieces_make_the_text(
    value: &str,
    separator: char,
    parts: Vec<String>,
    whole: String,
    i: int,
)
    requires
        call_ensures(text::pieces, (value, separator), parts),
        call_ensures(text::join, (&parts, separator), whole),
    ensures
        parts@.len() > 0,
        whole@ == value@,
        0 <= i < parts@.len() ==> !parts@[i]@.contains(separator),
{
    text::lemma_split_pieces(value@, separator);
    lemma_joined_split(value@, separator);
    let views = text::views(parts@);
    if 0 <= i < parts@.len() {
        assert(views[i] == parts@[i]@);
        assert(!views[i].contains(separator));
    }
}

proof fn lemma_joined_split(value: Seq<char>, separator: char)
    ensures
        text::joined(text::split(value, separator), separator) == value,
        text::split(value, separator).len() > 0,
    decreases value.len(),
{
    let all = text::split(value, separator);
    if value.len() > 0 {
        let before = text::split(value.drop_last(), separator);
        lemma_joined_split(value.drop_last(), separator);
        text::lemma_split_pieces(value.drop_last(), separator);
        if value.last() == separator {
            assert(all.drop_last() =~= before);
            assert(all.last() == Seq::<char>::empty());
            assert(text::joined(all, separator) =~= value);
        } else {
            assert(all.drop_last() =~= before.drop_last());
            assert(all.last() == before.last().push(value.last()));
            assert(value =~= value.drop_last().push(value.last()));
            assert(all.len() == before.len());
            if before.len() == 1 {
                assert(all[0] == before[0].push(value.last()));
                assert(text::joined(all, separator) == all[0]);
                assert(text::joined(before, separator) == before[0]);
            } else {
                let start = text::joined(before.drop_last(), separator) + seq![separator];
                assert(text::joined(before, separator) == start + before.last());
                assert(text::joined(all, separator) == start + all.last());
                assert(start + before.last().push(value.last()) =~= (start + before.last()).push(
                    value.last(),
                ));
            }
        }
    } else {
        assert(all =~= seq![Seq::<char>::empty()]);
    }
}

/// The lower case of a letter is thirty-two places on, the upper case as many back, and every other
/// character is its own.
pub proof fn law_letters_have_two_cases(c: char, low: char, up: char)
    requires
        call_ensures(text::to_ascii_lower, (c,), low),
        call_ensures(text::to_ascii_upper, (c,), up),
    ensures
        'A' <= c <= 'Z' ==> low as u32 == c as u32 + 32 && up == c,
        'a' <= c <= 'z' ==> up as u32 == c as u32 - 32 && low == c,
        !('A' <= c <= 'Z' || 'a' <= c <= 'z') ==> low == c && up == c,
{
}

/// Two texts are the same without regard to case where they are as long, and each two characters
/// have the same lower case.
pub proof fn law_case_is_compared_letter_by_letter(a: &str, b: &str, same: bool)
    requires
        call_ensures(text::equal_ignoring_case, (a, b), same),
    ensures
        same <==> a@.len() == b@.len() && forall|i: int|
            0 <= i < a@.len() ==> text::ascii_lower(#[trigger] a@[i]) == text::ascii_lower(b@[i]),
{
    let x = text::lowered(a@);
    let y = text::lowered(b@);
    if same {
        assert(x.len() == y.len());
        assert forall|i: int| 0 <= i < a@.len() implies text::ascii_lower(#[trigger] a@[i])
            == text::ascii_lower(b@[i]) by {
            assert(x[i] == y[i]);
        }
    }
    if a@.len() == b@.len() && forall|i: int|
        0 <= i < a@.len() ==> text::ascii_lower(#[trigger] a@[i]) == text::ascii_lower(b@[i]) {
        assert forall|i: int| 0 <= i < x.len() implies x[i] == y[i] by {
            assert(text::ascii_lower(a@[i]) == text::ascii_lower(b@[i]));
        }
        assert(x =~= y);
    }
}

/// A number that is written is read back, and has no zero before it.
pub proof fn law_written_number_is_read(value: u32, written: String, line: &str, read: Option<u32>)
    requires
        call_ensures(text::decimal_text, (value as u64,), written),
        line@ == written@,
        call_ensures(text::number_32, (line,), read),
    ensures
        read == Some(value),
        written@.len() > 0,
        value > 0 ==> written@[0] != '0',
        value == 0 ==> written@ == seq!['0'],
{
    text::lemma_decimal_round_trip(value as nat);
    lemma_no_leading_zero(value as nat);
}

proof fn lemma_no_leading_zero(value: nat)
    ensures
        text::decimal(value).len() > 0,
        value > 0 ==> text::decimal(value)[0] != '0',
    decreases value,
{
    if value >= 10 {
        lemma_no_leading_zero(value / 10);
    }
}

/// The digit of a sequence is worth sixteen times as much as the one behind it.
pub open spec fn hexadecimal_value(digits: Seq<char>) -> int
    decreases digits.len(),
{
    if digits.len() == 0 {
        0
    } else {
        let c = digits.last();
        hexadecimal_value(digits.drop_last()) * 16 + if '0' <= c <= '9' {
            c as u32 - '0' as u32
        } else {
            c as u32 - 'a' as u32 + 10
        }
    }
}

pub proof fn lemma_hexadecimal(value: nat)
    ensures
        hexadecimal_value(text::hexadecimal(value)) == value,
        text::hexadecimal(value).len() > 0,
        value > 0 ==> text::hexadecimal(value)[0] != '0',
        forall|i: int|
            0 <= i < text::hexadecimal(value).len() ==> '0' <= (#[trigger] text::hexadecimal(
                value,
            )[i]) <= '9' || 'a' <= text::hexadecimal(value)[i] <= 'f',
    decreases value,
{
    let digits = text::hexadecimal(value);
    let low = text::hex_char((value % 16) as nat);
    assert('0' <= low <= '9' || 'a' <= low <= 'f');
    if value >= 16 {
        let shorter = text::hexadecimal(value / 16);
        lemma_hexadecimal(value / 16);
        assert(digits == shorter.push(low));
        assert(digits.drop_last() =~= shorter);
        assert forall|i: int| 0 <= i < digits.len() implies '0' <= (#[trigger] digits[i]) <= '9'
            || 'a' <= digits[i] <= 'f' by {
            if i < shorter.len() {
                assert(digits[i] == shorter[i]);
            }
        }
    } else {
        assert(digits =~= seq![low]);
        assert(digits.drop_last() =~= Seq::empty());
        assert(hexadecimal_value(Seq::empty()) == 0);
    }
}

/// A fixed mask is known in messages by its value, in hexadecimal digits behind `0x`, and an
/// expression by its source.
pub proof fn law_masks_are_shown_in_hexadecimal(policy: &AffinityPolicy, shown: String)
    requires
        call_ensures(AffinityPolicy::log_value, (policy,), shown),
    ensures
        policy matches AffinityPolicy::Mask(mask) ==> shown@.len() > 2 && shown@[0] == '0'
            && shown@[1] == 'x' && hexadecimal_value(shown@.subrange(2, shown@.len() as int))
            == mask,
        policy matches AffinityPolicy::Expression(expression) ==> shown@ == expression.source@,
{
    reveal_strlit("0x");
    if let AffinityPolicy::Mask(mask) = policy {
        lemma_hexadecimal(*mask as nat);
        let digits = text::hexadecimal(*mask as nat);
        assert(shown@ == "0x"@ + digits);
        assert(shown@.subrange(2, shown@.len() as int) =~= digits);
    }
}

/// A part of a text is found at the first place where it stands.
pub proof fn law_parts_are_found_where_they_first_stand(
    value: &Vec<char>,
    part: &Vec<char>,
    found: Option<usize>,
    at: int,
)
    requires
        call_ensures(text::find_part, (value, part), found),
        0 <= at,
        at + part@.len() <= value@.len(),
        value@.subrange(at, at + part@.len()) == part@,
    ensures
        found matches Some(first) && first <= at && first + part@.len() <= value@.len()
            && value@.subrange(first as int, first + part@.len()) == part@,
{
    assert(text::occurs_at(value@, part@, at));
    assert(text::contains_part(value@, part@));
    if found->0 > at {
        assert(!text::occurs_at(value@, part@, at));
    }
}

/// A text that begins with another is that one and what is stripped of it, and likewise at its end.
pub proof fn law_what_is_stripped_is_the_rest(
    value: &str,
    part: &str,
    behind: Option<String>,
    before: Option<String>,
)
    requires
        call_ensures(text::strip_start, (value, part), behind),
        call_ensures(text::strip_end, (value, part), before),
    ensures
        behind matches Some(rest) ==> value@ == part@ + rest@,
        before matches Some(rest) ==> value@ == rest@ + part@,
        forall|rest: Seq<char>| value@ == #[trigger] (part@ + rest) ==> behind is Some,
        forall|rest: Seq<char>| value@ == #[trigger] (rest + part@) ==> before is Some,
{
    if let Some(rest) = behind {
        assert(value@ =~= part@ + rest@);
    }
    if let Some(rest) = before {
        assert(value@ =~= rest@ + part@);
    }
    assert forall|rest: Seq<char>| value@ == #[trigger] (part@ + rest) implies behind is Some by {
        assert(value@.subrange(0, part@.len() as int) =~= part@);
    }
    assert forall|rest: Seq<char>| value@ == #[trigger] (rest + part@) implies before is Some by {
        assert(value@.subrange(value@.len() - part@.len(), value@.len() as int) =~= part@);
    }
}

/// The line feeds at the end of a text are dropped, and nothing else.
pub proof fn law_only_feeds_are_dropped(value: &str, shorter: String)
    requires
        call_ensures(text::without_feeds, (value,), shorter),
    ensures
        shorter@.len() <= value@.len(),
        shorter@ == value@.subrange(0, shorter@.len() as int),
        shorter@.len() > 0 ==> shorter@.last() != '\n',
        forall|i: int| shorter@.len() <= i < value@.len() ==> #[trigger] value@[i] == '\n',
{
    lemma_feeds(value@);
}

proof fn lemma_feeds(value: Seq<char>)
    ensures
        text::skip_trailing_feeds(value).len() <= value.len(),
        text::skip_trailing_feeds(value) == value.subrange(
            0,
            text::skip_trailing_feeds(value).len() as int,
        ),
        text::skip_trailing_feeds(value).len() > 0 ==> text::skip_trailing_feeds(value).last()
            != '\n',
        forall|i: int|
            text::skip_trailing_feeds(value).len() <= i < value.len() ==> #[trigger] value[i]
                == '\n',
    decreases value.len(),
{
    let rest = text::skip_trailing_feeds(value);
    if value.len() > 0 && value.last() == '\n' {
        lemma_feeds(value.drop_last());
        assert(rest =~= value.subrange(0, rest.len() as int));
        assert forall|i: int| rest.len() <= i < value.len() implies #[trigger] value[i] == '\n' by {
            if i < value.len() - 1 {
                assert(value.drop_last()[i] == value[i]);
            }
        }
    } else {
        assert(value =~= value.subrange(0, value.len() as int));
    }
}

/// A 32-bit integer that is written into a buffer is read back from where it was written.
pub proof fn law_written_word_is_read(
    buffer: &mut Vec<u8>,
    value: u32,
    order: ByteOrder,
    written: &[u8],
    at: usize,
    read: u32,
)
    requires
        call_ensures(bytes::push_u32, (buffer, value, order), ()),
        written@ == final(buffer)@,
        at == old(buffer)@.len(),
        call_ensures(bytes::read_u32_at, (written, at, order), read),
    ensures
        read == value,
        written@.len() == at + 4,
{
    let own = bytes::u32_bytes(value, order);
    bytes::lemma_u32_round_trip(old(buffer)@, value, Seq::empty(), order);
    assert(written@ =~= old(buffer)@ + own + Seq::<u8>::empty());
    assert(own.len() == 4);
}

/// A 64-bit integer that is written into a buffer is read back from where it was written.
pub proof fn law_written_long_word_is_read(
    buffer: &mut Vec<u8>,
    value: u64,
    order: ByteOrder,
    written: &[u8],
    at: usize,
    read: u64,
)
    requires
        call_ensures(bytes::push_u64, (buffer, value, order), ()),
        written@ == final(buffer)@,
        at == old(buffer)@.len(),
        call_ensures(bytes::read_u64_at, (written, at, order), read),
    ensures
        read == value,
        written@.len() == at + 8,
{
    let own = bytes::u64_bytes(value, order);
    bytes::lemma_u64_round_trip(old(buffer)@, value, Seq::empty(), order);
    assert(written@ =~= old(buffer)@ + own + Seq::<u8>::empty());
    assert(own.len() == 8);
}

/// An integer is read byte by byte: the lowest first, or the highest first.
pub proof fn law_integers_are_read_byte_by_byte(
    buffer: &[u8],
    at: usize,
    order: ByteOrder,
    half: u16,
    whole: u32,
)
    requires
        at + 4 <= buffer@.len(),
        call_ensures(bytes::read_u16, (buffer, at, order), half),
        call_ensures(bytes::read_u32_at, (buffer, at, order), whole),
    ensures
        order == ByteOrder::Little ==> half == buffer@[at as int] + 256 * buffer@[at + 1],
        order == ByteOrder::Big ==> half == buffer@[at + 1] + 256 * buffer@[at as int],
        whole == cgroup_laws::word_value(buffer@, at as int, order),
{
}

/// A text is read back from the units that it is written in, with or without a zero behind them.
pub proof fn law_written_units_are_read(
    value: &str,
    units: Vec<u16>,
    ended: Vec<u16>,
    plain: &[u16],
    closed: &[u16],
    from_plain: String,
    from_closed: String,
)
    requires
        call_ensures(wide::encode, (value,), units),
        call_ensures(wide::wide_null, (value,), ended),
        plain@ == units@,
        closed@ == ended@,
        call_ensures(wide::name_from_wide, (plain,), from_plain),
        call_ensures(wide::name_from_wide, (closed,), from_closed),
    ensures
        from_closed@ == value@,
        units@.len() == 0 || units@.last() != 0 ==> from_plain@ == value@,
        ended@.len() == units@.len() + 1,
        ended@.last() == 0,
{
    wide::law_text_survives_units(value@);
    wide::law_well_formed_units_lose_nothing(wide::units(value@));
    assert(ended@.drop_last() =~= units@);
}

/// The units of a buffer up to its first zero are kept.
pub proof fn law_text_ends_at_the_first_zero(buffer: &[u16], kept: Vec<u16>, i: int)
    requires
        call_ensures(wide::os_string_from_wide_z, (buffer,), kept),
    ensures
        kept@.len() <= buffer@.len(),
        0 <= i < kept@.len() ==> kept@[i] == buffer@[i] && kept@[i] != 0,
        kept@.len() < buffer@.len() ==> buffer@[kept@.len() as int] == 0,
{
    let end = choose|end: int| #[trigger]
        wide::is_end_of_text(buffer@, end) && kept@ == buffer@.subrange(0, end);
    assert(wide::is_end_of_text(buffer@, end));
    if 0 <= i < kept@.len() {
        assert(kept@[i] == buffer@[i]);
    }
}

/// A path is put in quotes, with a zero behind it.
pub proof fn law_paths_are_quoted(path: &[u16], quoted: Vec<u16>)
    requires
        call_ensures(wide::quoted_wide_path, (path,), quoted),
    ensures
        quoted@.len() == path@.len() + 3,
        quoted@[0] == 0x22,
        quoted@.subrange(1, path@.len() as int + 1) == path@,
        quoted@[path@.len() as int + 1] == 0x22,
        quoted@.last() == 0,
{
    assert(quoted@.subrange(1, path@.len() as int + 1) =~= path@);
}

/// The term that a word writes, whatever its case: `P`, `E`, `LPE` or `LP-E`, and `C` or `X3D`.
pub open spec fn writes_tier(word: Seq<char>, term: AffinityTerm) -> bool {
    let upper = text::uppered(word);
    match term {
        AffinityTerm::Performance => upper == "P"@,
        AffinityTerm::Efficiency => upper == "E"@,
        AffinityTerm::LowPowerEfficiency => upper == "LPE"@ || upper == "LP-E"@,
        AffinityTerm::Cache => upper == "C"@ || upper == "X3D"@,
        AffinityTerm::LogicalIndex(_) => false,
    }
}

/// The word, white space around it left out, writes the term.
pub open spec fn writes_term(word: Seq<char>, term: AffinityTerm) -> bool {
    match term {
        AffinityTerm::LogicalIndex(index) => text::unsigned(text::trim(word)) == Some(index as nat),
        _ => writes_tier(text::trim(word), term),
    }
}

proof fn lemma_upper_words()
    ensures
        "P"@ == seq!['P'],
        "E"@ == seq!['E'],
        "LPE"@ == seq!['L', 'P', 'E'],
        "LP-E"@ == seq!['L', 'P', '-', 'E'],
        "C"@ == seq!['C'],
        "X3D"@ == seq!['X', '3', 'D'],
{
    reveal_strlit("P");
    reveal_strlit("E");
    reveal_strlit("LPE");
    reveal_strlit("LP-E");
    reveal_strlit("C");
    reveal_strlit("X3D");
    assert("P"@ =~= seq!['P']);
    assert("E"@ =~= seq!['E']);
    assert("LPE"@ =~= seq!['L', 'P', 'E']);
    assert("LP-E"@ =~= seq!['L', 'P', '-', 'E']);
    assert("C"@ =~= seq!['C']);
    assert("X3D"@ =~= seq!['X', '3', 'D']);
}

proof fn lemma_number_is_no_tier(word: Seq<char>)
    requires
        text::unsigned(word) is Some,
    ensures
        forall|term: AffinityTerm| !#[trigger] writes_tier(word, term),
{
    lemma_upper_words();
    let upper = text::uppered(word);
    assert(word.len() > 0);
    let last = word.last();
    assert(text::is_digit(last)) by {
        let body = if word[0] == '+' {
            word.subrange(1, word.len() as int)
        } else {
            word
        };
        assert(body.last() == last);
        assert(text::is_digit(body[body.len() - 1]));
    }
    assert(upper.last() == last);
    assert forall|term: AffinityTerm| !#[trigger] writes_tier(word, term) by {
        if writes_tier(word, term) {
            assert("P"@.last() == 'P' && "E"@.last() == 'E' && "LPE"@.last() == 'E' && "LP-E"@.last()
                == 'E' && "C"@.last() == 'C' && "X3D"@.last() == 'D');
        }
    }
}

proof fn lemma_term_of(word: Seq<char>, term: AffinityTerm)
    ensures
        affinity::term_of(text::trim(word)) == Some(term) <==> writes_term(word, term),
{
    let inner = text::trim(word);
    lemma_upper_words();
    if text::unsigned(inner) is Some {
        lemma_number_is_no_tier(inner);
        assert(!writes_tier(inner, AffinityTerm::Performance));
        assert(!writes_tier(inner, AffinityTerm::Efficiency));
        assert(!writes_tier(inner, AffinityTerm::LowPowerEfficiency));
        assert(!writes_tier(inner, AffinityTerm::Cache));
    }
    assert("P"@[0] != "E"@[0] && "P"@[0] != "C"@[0] && "E"@[0] != "C"@[0]);
    assert("P"@.len() == 1 && "E"@.len() == 1 && "C"@.len() == 1 && "LPE"@.len() == 3
        && "LP-E"@.len() == 4 && "X3D"@.len() == 3);
    assert("LPE"@[0] != "X3D"@[0]);
}

/// An expression of several words, with a `+` between them and none within one, is read as the terms
/// that the words write, in their order.
pub proof fn law_words_are_read_as_their_terms(
    source: String,
    parsed: Result<AffinityExpression, String>,
    words: Seq<Seq<char>>,
    terms: Seq<AffinityTerm>,
)
    requires
        call_ensures(AffinityExpression::parse, (source,), parsed),
        words.len() > 0,
        words.len() == terms.len(),
        forall|i: int|
            0 <= i < words.len() ==> !(#[trigger] words[i]).contains('+') && writes_term(
                words[i],
                terms[i],
            ),
        forall|i: int|
            0 <= i < words.len() ==> (#[trigger] words[i]).len() > 0 && !text::is_space(words[i][0])
                && !text::is_space(words[i].last()),
        source@ == text::joined(words, '+'),
    ensures
        parsed matches Ok(expression) && expression.terms@ == terms && expression.source@ == source@,
{
    text::lemma_split_joined(words, '+');
    text::lemma_joined_ends(words, '+');
    text::lemma_trim_fixed(source@);
    let read = affinity::words(source@);
    assert forall|i: int| 0 <= i < words.len() implies #[trigger] read[i] == words[i] && affinity::term_of(
        words[i],
    ) == Some(terms[i]) by {
        text::lemma_trim_fixed(words[i]);
        lemma_term_of(words[i], terms[i]);
    }
    assert(read =~= words);
    assert(affinity::is_expression(source@));
    assert(affinity::terms_of(source@) =~= terms);
    if let Err(message) = parsed {
        affinity::lemma_refused_is_no_expression(source@, message@);
    }
}

/// An expression that is read has a term for each of its pieces, and the piece writes it: one with a
/// piece that writes no term is refused, and so is an empty one.
pub proof fn law_every_piece_writes_its_term(
    source: String,
    parsed: Result<AffinityExpression, String>,
    i: int,
)
    requires
        call_ensures(AffinityExpression::parse, (source,), parsed),
    ensures
        parsed matches Ok(expression) ==> expression.terms@.len() == text::split(
            text::trim(source@),
            '+',
        ).len() && (0 <= i < expression.terms@.len() ==> writes_term(
            text::split(text::trim(source@), '+')[i],
            expression.terms@[i],
        )) && expression.source@ == text::trim(source@) && text::trim(source@).len() > 0,
        parsed is Err ==> text::trim(source@).len() == 0 || exists|k: int|
            0 <= k < text::split(text::trim(source@), '+').len() && forall|term: AffinityTerm|
                !writes_term(#[trigger] text::split(text::trim(source@), '+')[k], term),
{
    let pieces = text::split(text::trim(source@), '+');
    let words = affinity::words(source@);
    assert(words.len() == pieces.len());
    match parsed {
        Ok(expression) => {
            if 0 <= i < expression.terms@.len() {
                assert(words[i] == text::trim(pieces[i]));
                assert(affinity::term_of(words[i]) is Some);
                assert(expression.terms@[i] == affinity::term_of(words[i])->0);
                lemma_term_of(pieces[i], expression.terms@[i]);
            }
        },
        Err(message) => {
            if text::trim(source@).len() > 0 {
                affinity::lemma_refused_is_no_expression(source@, message@);
                let k = choose|k: int|
                    0 <= k < words.len() && !(affinity::term_of(#[trigger] words[k]) is Some);
                assert(words[k] == text::trim(pieces[k]));
                assert forall|term: AffinityTerm| !#[trigger] writes_term(pieces[k], term) by {
                    lemma_term_of(pieces[k], term);
                }
            }
        },
    }
}

proof fn lemma_split_first(line: Seq<char>, rest: Seq<char>, separator: char)
    requires
        !line.contains(separator),
    ensures
        text::split(line.push(separator) + rest, separator) == seq![line] + text::split(
            rest,
            separator,
        ),
        text::split(line, separator) == seq![line],
    decreases line.len() + rest.len(),
{
    let whole = line.push(separator) + rest;
    if rest.len() == 0 {
        assert(whole =~= line.push(separator));
        assert(whole.drop_last() =~= line);
        if line.len() > 0 {
            let shorter = line.drop_last();
            assert(!shorter.contains(separator)) by {
                if shorter.contains(separator) {
                    let i = choose|i: int| 0 <= i < shorter.len() && shorter[i] == separator;
                    assert(line[i] == separator);
                }
            }
            assert(line[line.len() - 1] != separator);
            lemma_split_first(shorter, rest, separator);
            assert(shorter.push(line.last()) =~= line);
            assert(seq![shorter].update(0, line) =~= seq![line]);
        } else {
            assert(line =~= Seq::<char>::empty());
        }
        assert(text::split(line, separator) == seq![line]);
        assert(rest =~= Seq::<char>::empty());
        assert(seq![line].push(Seq::<char>::empty()) =~= seq![line] + seq![Seq::<char>::empty()]);
    } else {
        let shorter = rest.drop_last();
        lemma_split_first(line, shorter, separator);
        assert(whole.drop_last() =~= line.push(separator) + shorter);
        let before = text::split(shorter, separator);
        text::lemma_split_pieces(shorter, separator);
        assert(before.len() > 0);
        assert(whole.last() == rest.last());
        if rest.last() == separator {
            assert((seq![line] + before).push(Seq::<char>::empty()) =~= seq![line] + before.push(
                Seq::<char>::empty(),
            ));
        } else {
            let last = before.last().push(rest.last());
            assert((seq![line] + before).last() == before.last());
            assert((seq![line] + before).update(before.len() as int, last) =~= seq![line]
                + before.update(before.len() - 1, last));
        }
    }
}

/// A text is read line by line: its first line ends at the first feed and loses one return before
/// it, and the lines after it are those of the rest.
pub proof fn law_first_line_ends_at_the_first_feed(
    whole: &str,
    line: Seq<char>,
    rest: &str,
    found: Vec<String>,
    others: Vec<String>,
    i: int,
)
    requires
        !line.contains('\n'),
        whole@ == line.push('\n') + rest@,
        call_ensures(text::lines_of, (whole,), found),
        call_ensures(text::lines_of, (rest,), others),
    ensures
        found@.len() == others@.len() + 1,
        line.len() > 0 && line.last() == '\r' ==> found@[0]@ == line.drop_last(),
        !(line.len() > 0 && line.last() == '\r') ==> found@[0]@ == line,
        0 <= i < others@.len() ==> found@[i + 1]@ == others@[i]@,
{
    lemma_split_first(line, rest@, '\n');
    text::lemma_split_pieces(rest@, '\n');
    let pieces = text::split(rest@, '\n');
    let cut = |line: Seq<char>| text::without_return(line);
    let all = text::split(whole@, '\n');
    assert(all.last() == pieces.last());
    assert(all.drop_last() =~= seq![line] + pieces.drop_last());
    assert(all.drop_last().map_values(cut) =~= seq![text::without_return(line)]
        + pieces.drop_last().map_values(cut));
    assert(text::lines(whole@) =~= seq![text::without_return(line)] + text::lines(rest@));
    assert(text::views(found@)[0] == found@[0]@);
    if 0 <= i < others@.len() {
        assert(text::views(found@)[i + 1] == found@[i + 1]@);
        assert(text::views(others@)[i] == others@[i]@);
    }
}

/// A text without a feed is one line as it stands, and an empty text has no line.
pub proof fn law_text_without_feed_is_one_line(whole: &str, found: Vec<String>)
    requires
        !whole@.contains('\n'),
        call_ensures(text::lines_of, (whole,), found),
    ensures
        whole@.len() == 0 ==> found@.len() == 0,
        whole@.len() > 0 ==> found@.len() == 1 && found@[0]@ == whole@,
{
    lemma_split_first(whole@, Seq::empty(), '\n');
    let ended = seq![whole@].drop_last().map_values(|line: Seq<char>| text::without_return(line));
    assert(ended =~= Seq::<Seq<char>>::empty());
    assert(text::views(found@).len() == found@.len());
    if whole@.len() > 0 {
        assert(text::lines(whole@) =~= seq![whole@]);
        assert(text::views(found@)[0] == found@[0]@);
    }
}

/// A text begins with what stands in front of a rest and ends with what stands behind one; a part is
/// in it where something, possibly nothing, stands on both sides.
pub proof fn law_texts_are_put_together(
    whole: &str,
    part: &str,
    front: Seq<char>,
    back: Seq<char>,
    starts: bool,
    ends: bool,
)
    requires
        call_ensures(text::has_prefix, (whole, part), starts),
        call_ensures(text::has_suffix, (whole, part), ends),
    ensures
        whole@ == part@ + back ==> starts,
        whole@ == front + part@ ==> ends,
        starts ==> whole@ == part@ + whole@.skip(part@.len() as int),
        ends ==> whole@ == whole@.take(whole@.len() - part@.len()) + part@,
{
    if whole@ == part@ + back {
        assert(whole@.subrange(0, part@.len() as int) =~= part@);
    }
    if whole@ == front + part@ {
        assert(whole@.subrange(whole@.len() - part@.len(), whole@.len() as int) =~= part@);
    }
}

/// A word is in a text where space or an end of the text stands on both sides of it.
pub proof fn law_words_stand_between_spaces(
    whole: &str,
    word: &str,
    front: Seq<char>,
    back: Seq<char>,
    found: bool,
)
    requires
        call_ensures(text::names_word, (whole, word), found),
        front.len() == 0 || front.last() == ' ' || front.last() == '\n',
        back.len() == 0 || back[0] == ' ' || back[0] == '\n',
    ensures
        whole@ == front + word@ + back ==> found,
        found ==> exists|at: int|
            #![trigger whole@.subrange(at, at + word@.len())]
            0 <= at <= whole@.len() - word@.len() && whole@.subrange(at, at + word@.len()) == word@
                && (at == 0 || text::is_space(whole@[at - 1])) && (at + word@.len() == whole@.len()
                || text::is_space(whole@[at + word@.len()])),
{
    if whole@ == front + word@ + back {
        let at = front.len() as int;
        assert(whole@.subrange(at, at + word@.len()) =~= word@);
        assert(text::has_word_at(whole@, word@, at));
    }
    if found {
        let at = choose|at: int| text::has_word_at(whole@, word@, at);
        assert(whole@.subrange(at, at + word@.len()) == word@);
    }
}

} // verus!
