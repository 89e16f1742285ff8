//! Text in 16-bit units, as Windows keeps it.

use vstd::prelude::*;

use crate::text;

verus! {

/// The units of one character: one, or a surrogate pair.
pub open spec fn char_units(c: char) -> Seq<u16> {
    let code = c as u32;
    if code < 0x10000 {
        seq![code as u16]
    } else {
        seq![(0xd800 + (code - 0x10000) / 0x400) as u16, (0xdc00 + (code - 0x10000) % 0x400) as u16]
    }
}

/// The units of a text.
pub open spec fn units(text: Seq<char>) -> Seq<u16>
    decreases text.len(),
{
    if text.len() == 0 {
        Seq::empty()
    } else {
        units(text.drop_last()) + char_units(text.last())
    }
}

pub open spec fn is_surrogate(unit: u16) -> bool {
    0xd800 <= unit <= 0xdfff
}

/// The units from `at` on begin with a surrogate pair.
pub open spec fn is_pair(wide: Seq<u16>) -> bool {
    wide.len() >= 2 && 0xd800 <= wide[0] <= 0xdbff && 0xdc00 <= wide[1] <= 0xdfff
}

/// The text of units that are well formed: every surrogate stands in a pair.
pub open spec fn decoded(wide: Seq<u16>) -> Option<Seq<char>>
    decreases wide.len(),
{
    if wide.len() == 0 {
        Some(Seq::empty())
    } else if !is_surrogate(wide[0]) {
        match decoded(wide.subrange(1, wide.len() as int)) {
            Some(rest) => Some(seq![wide[0] as char] + rest),
            None => None,
        }
    } else if is_pair(wide) {
        match decoded(wide.subrange(2, wide.len() as int)) {
            Some(rest) => Some(
                seq![(0x10000 + (wide[0] - 0xd800) * 0x400 + (wide[1] - 0xdc00)) as char] + rest,
            ),
            None => None,
        }
    } else {
        None
    }
}

/// The text of units in which a replacement character stands for each surrogate outside a pair.
pub open spec fn decoded_lossily(wide: Seq<u16>) -> Seq<char>
    decreases wide.len(),
{
    if wide.len() == 0 {
        Seq::empty()
    } else if is_pair(wide) {
        seq![(0x10000 + (wide[0] - 0xd800) * 0x400 + (wide[1] - 0xdc00)) as char]
            + decoded_lossily(wide.subrange(2, wide.len() as int))
    } else if is_surrogate(wide[0]) {
        seq!['\u{fffd}'] + decoded_lossily(wide.subrange(1, wide.len() as int))
    } else {
        seq![wide[0] as char] + decoded_lossily(wide.subrange(1, wide.len() as int))
    }
}

/// `String::from_utf16`: the text of well-formed UTF-16 units, and an error for any others.
#[verifier::external_body]
pub(crate) fn decode(wide: &Vec<u16>) -> (text: Option<String>)
    ensures
        match text {
            Some(text) => decoded(wide@) == Some(text@),
            None => decoded(wide@) is None,
        },
{
    String::from_utf16(wide).ok()
}

/// `String::from_utf16_lossy`: the text of UTF-16 units, in which the replacement character U+FFFD
/// stands for each surrogate outside a pair.
#[verifier::external_body]
pub(crate) fn decode_lossily(wide: &Vec<u16>) -> (text: String)
    ensures
        text@ == decoded_lossily(wide@),
{
    String::from_utf16_lossy(wide)
}

/// The units of a text.
pub fn encode(value: &str) -> (wide: Vec<u16>)
    ensures
        wide@ == units(value@),
{
    let chars = text::characters(value);
    let mut wide: Vec<u16> = Vec::new();
    let mut i: usize = 0;
    assert(chars@.subrange(0, 0) =~= Seq::empty());
    while i < chars.len()
        invariant
            i <= chars@.len(),
            chars@ == value@,
            wide@ == units(chars@.subrange(0, i as int)),
        decreases chars@.len() - i,
    {
        let code: u32 = chars[i] as u32;
        let ghost before = wide@;
        assert(chars@.subrange(0, i + 1).drop_last() =~= chars@.subrange(0, i as int));
        if code < 0x10000 {
            wide.push(code as u16);
        } else {
            wide.push((0xd800 + (code - 0x10000) / 0x400) as u16);
            wide.push((0xdc00 + (code - 0x10000) % 0x400) as u16);
        }
        assert(wide@ =~= before + char_units(chars@[i as int]));
        i = i + 1;
    }
    assert(chars@.subrange(0, chars@.len() as int) =~= chars@);
    wide
}

/// The units of a text, with a terminating zero.
pub fn wide_null(value: &str) -> (wide: Vec<u16>)
    ensures
        wide@ == units(value@).push(0),
{
    let mut wide = encode(value);
    wide.push(0);
    wide
}

/// The text of units, without one terminating zero.
pub fn name_from_wide(value: &[u16]) -> (name: String)
    ensures
        name@ == decoded_lossily(
            if value@.len() > 0 && value@.last() == 0 {
                value@.drop_last()
            } else {
                value@
            },
        ),
{
    let end = if value.len() > 0 && value[value.len() - 1] == 0 {
        value.len() - 1
    } else {
        value.len()
    };
    let kept = prefix(value, end);
    proof {
        if value@.len() > 0 && value@.last() == 0 {
            assert(kept@ =~= value@.drop_last());
        } else {
            assert(kept@ =~= value@);
        }
    }
    decode_lossily(&kept)
}

fn prefix(value: &[u16], end: usize) -> (kept: Vec<u16>)
    requires
        end <= value@.len(),
    ensures
        kept@ == value@.subrange(0, end as int),
{
    let mut kept: Vec<u16> = Vec::new();
    let mut i: usize = 0;
    while i < end
        invariant
            i <= end <= value@.len(),
            kept@ == value@.subrange(0, i as int),
        decreases end - i,
    {
        kept.push(value[i]);
        i = i + 1;
        assert(kept@ =~= value@.subrange(0, i as int));
    }
    kept
}

/// `end` is the first zero of the buffer, or its length where it holds none.
pub open spec fn is_end_of_text(buffer: Seq<u16>, end: int) -> bool {
    &&& 0 <= end <= buffer.len()
    &&& end < buffer.len() ==> buffer[end] == 0
    &&& forall|i: int| 0 <= i < end ==> buffer[i] != 0
}

/// The units of a buffer up to its first zero.
pub fn os_string_from_wide_z(buffer: &[u16]) -> (kept: Vec<u16>)
    ensures
        exists|end: int| #[trigger]
            is_end_of_text(buffer@, end) && kept@ == buffer@.subrange(0, end),
{
    let mut end: usize = 0;
    while end < buffer.len() && buffer[end] != 0
        invariant
            end <= buffer@.len(),
            forall|i: int| 0 <= i < end ==> buffer@[i] != 0,
        decreases buffer@.len() - end,
    {
        end = end + 1;
    }
    assert(is_end_of_text(buffer@, end as int));
    prefix(buffer, end)
}

/// As many units as the name of a counter may have.
pub const COUNTER_NAME_UNITS: usize = 8192;

/// The name of an instance of a counter, of its units up to the first zero. A name that does not
/// end in time is none.
pub fn wide_string_from_pdh(value: &Option<Vec<u16>>) -> (name: Option<String>)
    ensures
        match value {
            Some(units) => if units@.len() >= COUNTER_NAME_UNITS {
                name is None
            } else {
                name matches Some(name) && name@ == decoded_lossily(units@)
            },
            None => name is None,
        },
{
    match value {
        Some(units) => {
            if units.len() >= COUNTER_NAME_UNITS {
                return None;
            }
            Some(decode_lossily(units))
        },
        None => None,
    }
}

/// A path in quotes, with a terminating zero.
pub fn quoted_wide_path(path: &[u16]) -> (wide: Vec<u16>)
    ensures
        wide@ == seq![0x22u16] + path@ + seq![0x22u16, 0u16],
{
    let mut wide: Vec<u16> = Vec::new();
    wide.push(0x22);
    let mut i: usize = 0;
    while i < path.len()
        invariant
            i <= path@.len(),
            wide@ == seq![0x22u16] + path@.subrange(0, i as int),
        decreases path@.len() - i,
    {
        wide.push(path[i]);
        i = i + 1;
        assert(wide@ =~= seq![0x22u16] + path@.subrange(0, i as int));
    }
    wide.push(0x22);
    wide.push(0);
    assert(wide@ =~= seq![0x22u16] + path@ + seq![0x22u16, 0u16]);
    wide
}

proof fn lemma_decode_char(c: char, rest: Seq<u16>)
    ensures
        decoded(char_units(c) + rest) == match decoded(rest) {
            Some(text) => Some(seq![c] + text),
            None => None,
        },
{
    let wide = char_units(c) + rest;
    let code = c as u32;
    if code < 0x10000 {
        assert(wide[0] == code as u16);
        assert(!is_surrogate(wide[0]));
        assert(wide.subrange(1, wide.len() as int) =~= rest);
    } else {
        assert(wide[0] == (0xd800 + (code - 0x10000) / 0x400) as u16);
        assert(wide[1] == (0xdc00 + (code - 0x10000) % 0x400) as u16);
        assert(is_pair(wide));
        assert(wide.subrange(2, wide.len() as int) =~= rest);
        assert(0x10000 + (wide[0] - 0xd800) * 0x400 + (wide[1] - 0xdc00) == code);
    }
}

proof fn lemma_decode_after(text: Seq<char>, rest: Seq<u16>)
    ensures
        decoded(units(text) + rest) == match decoded(rest) {
            Some(after) => Some(text + after),
            None => None,
        },
    decreases text.len(),
{
    if text.len() == 0 {
        assert(units(text) + rest =~= rest);
        if decoded(rest) is Some {
            assert(text + decoded(rest)->0 =~= decoded(rest)->0);
        }
    } else {
        let before = text.drop_last();
        let c = text.last();
        lemma_decode_char(c, rest);
        lemma_decode_after(before, char_units(c) + rest);
        assert(units(text) + rest =~= units(before) + (char_units(c) + rest));
        if decoded(rest) is Some {
            assert(before + (seq![c] + decoded(rest)->0) =~= text + decoded(rest)->0);
        }
    }
}

/// A text is read back from its units.
pub proof fn law_text_survives_units(text: Seq<char>)
    ensures
        decoded(units(text)) == Some(text),
{
    lemma_decode_after(text, Seq::empty());
    assert(units(text) + Seq::<u16>::empty() =~= units(text));
    assert(text + Seq::<char>::empty() =~= text);
}

/// Nothing is lost of units that are well formed.
pub proof fn law_well_formed_units_lose_nothing(wide: Seq<u16>)
    requires
        decoded(wide) is Some,
    ensures
        decoded(wide) == Some(decoded_lossily(wide)),
    decreases wide.len(),
{
    if wide.len() > 0 {
        if is_surrogate(wide[0]) {
            law_well_formed_units_lose_nothing(wide.subrange(2, wide.len() as int));
        } else {
            law_well_formed_units_lose_nothing(wide.subrange(1, wide.len() as int));
        }
    }
}

} // verus!
