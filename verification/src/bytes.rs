//! Integers in byte buffers.

use vstd::prelude::*;

verus! {

/// The order in which the bytes of an integer stand in memory.
#[derive(Clone, Copy, Debug, Eq, PartialEq, Structural)]
pub enum ByteOrder {
    Little,
    Big,
}

/// The 16-bit integer whose bytes begin at `at`.
pub open spec fn u16_at(bytes: Seq<u8>, at: int, order: ByteOrder) -> u16 {
    match order {
        ByteOrder::Little => (bytes[at] + 256 * bytes[at + 1]) as u16,
        ByteOrder::Big => (bytes[at + 1] + 256 * bytes[at]) as u16,
    }
}

/// The 32-bit integer whose bytes begin at `at`.
pub open spec fn u32_at(bytes: Seq<u8>, at: int, order: ByteOrder) -> u32 {
    match order {
        ByteOrder::Little => (bytes[at] + 256 * bytes[at + 1] + 65536 * bytes[at + 2] + 16777216
            * bytes[at + 3]) as u32,
        ByteOrder::Big => (bytes[at + 3] + 256 * bytes[at + 2] + 65536 * bytes[at + 1] + 16777216
            * bytes[at]) as u32,
    }
}

/// The 64-bit integer whose bytes begin at `at`.
pub open spec fn u64_at(bytes: Seq<u8>, at: int, order: ByteOrder) -> u64 {
    match order {
        ByteOrder::Little => (u32_at(bytes, at, order) + 4294967296 * u32_at(
            bytes,
            at + 4,
            order,
        )) as u64,
        ByteOrder::Big => (u32_at(bytes, at + 4, order) + 4294967296 * u32_at(
            bytes,
            at,
            order,
        )) as u64,
    }
}

/// How many bytes a pointer takes, and a number as wide as one.
pub const WORD_SIZE: usize = (usize::BITS / 8) as usize;

/// The number as wide as a pointer that stands at `at`.
pub open spec fn word_at(bytes: Seq<u8>, at: int, order: ByteOrder) -> usize {
    if WORD_SIZE == 8 {
        u64_at(bytes, at, order) as usize
    } else {
        u32_at(bytes, at, order) as usize
    }
}

/// The bytes of a 16-bit integer.
pub open spec fn u16_bytes(value: u16, order: ByteOrder) -> Seq<u8> {
    let low = (value % 256) as u8;
    let high = (value / 256) as u8;
    match order {
        ByteOrder::Little => seq![low, high],
        ByteOrder::Big => seq![high, low],
    }
}

/// The bytes of a 32-bit integer.
pub open spec fn u32_bytes(value: u32, order: ByteOrder) -> Seq<u8> {
    let b0 = (value % 256) as u8;
    let b1 = (value / 256 % 256) as u8;
    let b2 = (value / 65536 % 256) as u8;
    let b3 = (value / 16777216) as u8;
    match order {
        ByteOrder::Little => seq![b0, b1, b2, b3],
        ByteOrder::Big => seq![b3, b2, b1, b0],
    }
}

/// The bytes of a 64-bit integer.
pub open spec fn u64_bytes(value: u64, order: ByteOrder) -> Seq<u8> {
    let low = u32_bytes((value % 4294967296) as u32, order);
    let high = u32_bytes((value / 4294967296) as u32, order);
    match order {
        ByteOrder::Little => low + high,
        ByteOrder::Big => high + low,
    }
}

/// The bytes of several 16-bit integers.
pub open spec fn words_16(values: Seq<u16>, order: ByteOrder) -> Seq<u8>
    decreases values.len(),
{
    if values.len() == 0 {
        Seq::empty()
    } else {
        words_16(values.drop_last(), order) + u16_bytes(values.last(), order)
    }
}

/// The bytes of several 32-bit integers.
pub open spec fn words_32(values: Seq<u32>, order: ByteOrder) -> Seq<u8>
    decreases values.len(),
{
    if values.len() == 0 {
        Seq::empty()
    } else {
        words_32(values.drop_last(), order) + u32_bytes(values.last(), order)
    }
}

/// The bytes of several 64-bit integers.
pub open spec fn words_64(values: Seq<u64>, order: ByteOrder) -> Seq<u8>
    decreases values.len(),
{
    if values.len() == 0 {
        Seq::empty()
    } else {
        words_64(values.drop_last(), order) + u64_bytes(values.last(), order)
    }
}

/// A 32-bit integer is read back from the bytes it is written with, wherever they stand.
pub proof fn lemma_u32_round_trip(before: Seq<u8>, value: u32, after: Seq<u8>, order: ByteOrder)
    ensures
        u32_at(before + u32_bytes(value, order) + after, before.len() as int, order) == value,
{
    let all = before + u32_bytes(value, order) + after;
    let at = before.len() as int;
    let written = u32_bytes(value, order);
    assert(all[at] == written[0]);
    assert(all[at + 1] == written[1]);
    assert(all[at + 2] == written[2]);
    assert(all[at + 3] == written[3]);
}

/// A 64-bit integer is read back from the bytes it is written with, wherever they stand.
pub proof fn lemma_u64_round_trip(before: Seq<u8>, value: u64, after: Seq<u8>, order: ByteOrder)
    ensures
        u64_at(before + u64_bytes(value, order) + after, before.len() as int, order) == value,
{
    let low = (value % 4294967296) as u32;
    let high = (value / 4294967296) as u32;
    let (first, second) = match order {
        ByteOrder::Little => (low, high),
        ByteOrder::Big => (high, low),
    };
    let all = before + u64_bytes(value, order) + after;
    lemma_u32_round_trip(before, first, u32_bytes(second, order) + after, order);
    assert(before + u32_bytes(first, order) + (u32_bytes(second, order) + after) =~= all);
    lemma_u32_round_trip(before + u32_bytes(first, order), second, after, order);
    assert((before + u32_bytes(first, order)) + u32_bytes(second, order) + after =~= all);
}

pub proof fn lemma_words_16_length(values: Seq<u16>, order: ByteOrder)
    ensures
        words_16(values, order).len() == 2 * values.len(),
    decreases values.len(),
{
    if values.len() > 0 {
        lemma_words_16_length(values.drop_last(), order);
    }
}

/// Each of several 32-bit integers is read back from where it was written.
pub proof fn lemma_words_32(before: Seq<u8>, values: Seq<u32>, after: Seq<u8>, order: ByteOrder)
    ensures
        words_32(values, order).len() == 4 * values.len(),
        forall|k: int|
            0 <= k < values.len() ==> #[trigger] values[k] == u32_at(
                before + words_32(values, order) + after,
                before.len() + 4 * k,
                order,
            ),
    decreases values.len(),
{
    if values.len() > 0 {
        let first = words_32(values.drop_last(), order);
        let last = u32_bytes(values.last(), order);
        let all = before + words_32(values, order) + after;
        lemma_words_32(before, values.drop_last(), last + after, order);
        lemma_u32_round_trip(before + first, values.last(), after, order);
        assert(before + first + (last + after) =~= all);
        assert((before + first) + last + after =~= all);
        assert forall|k: int| 0 <= k < values.len() implies #[trigger] values[k] == u32_at(
            all,
            before.len() + 4 * k,
            order,
        ) by {
            if k < values.len() - 1 {
                assert(values.drop_last()[k] == values[k]);
            }
        }
    }
}

/// Each of several 64-bit integers is read back from where it was written.
pub proof fn lemma_words_64(before: Seq<u8>, values: Seq<u64>, after: Seq<u8>, order: ByteOrder)
    ensures
        words_64(values, order).len() == 8 * values.len(),
        forall|k: int|
            0 <= k < values.len() ==> #[trigger] values[k] == u64_at(
                before + words_64(values, order) + after,
                before.len() + 8 * k,
                order,
            ),
    decreases values.len(),
{
    if values.len() > 0 {
        let first = words_64(values.drop_last(), order);
        let last = u64_bytes(values.last(), order);
        let all = before + words_64(values, order) + after;
        lemma_words_64(before, values.drop_last(), last + after, order);
        lemma_u64_round_trip(before + first, values.last(), after, order);
        assert(before + first + (last + after) =~= all);
        assert((before + first) + last + after =~= all);
        assert forall|k: int| 0 <= k < values.len() implies #[trigger] values[k] == u64_at(
            all,
            before.len() + 8 * k,
            order,
        ) by {
            if k < values.len() - 1 {
                assert(values.drop_last()[k] == values[k]);
            }
        }
    }
}

pub fn read_u16(bytes: &[u8], at: usize, order: ByteOrder) -> (value: u16)
    requires
        at + 2 <= bytes@.len(),
    ensures
        value == u16_at(bytes@, at as int, order),
{
    let a: u16 = bytes[at] as u16;
    let b: u16 = bytes[at + 1] as u16;
    match order {
        ByteOrder::Little => a + 256 * b,
        ByteOrder::Big => b + 256 * a,
    }
}

pub fn read_u32_at(bytes: &[u8], at: usize, order: ByteOrder) -> (value: u32)
    requires
        at + 4 <= bytes@.len(),
    ensures
        value == u32_at(bytes@, at as int, order),
{
    let a: u32 = bytes[at] as u32;
    let b: u32 = bytes[at + 1] as u32;
    let c: u32 = bytes[at + 2] as u32;
    let d: u32 = bytes[at + 3] as u32;
    match order {
        ByteOrder::Little => a + 256 * b + 65536 * c + 16777216 * d,
        ByteOrder::Big => d + 256 * c + 65536 * b + 16777216 * a,
    }
}

pub fn read_u64_at(bytes: &[u8], at: usize, order: ByteOrder) -> (value: u64)
    requires
        at + 8 <= bytes.len(),
    ensures
        value == u64_at(bytes@, at as int, order),
{
    let first: u64 = read_u32_at(bytes, at, order) as u64;
    let second: u64 = read_u32_at(bytes, at + 4, order) as u64;
    match order {
        ByteOrder::Little => first + 4294967296 * second,
        ByteOrder::Big => second + 4294967296 * first,
    }
}

pub fn read_word_at(bytes: &[u8], at: usize, order: ByteOrder) -> (value: usize)
    requires
        at + WORD_SIZE <= bytes@.len(),
    ensures
        value == word_at(bytes@, at as int, order),
{
    if WORD_SIZE == 8 {
        read_u64_at(bytes, at, order) as usize
    } else {
        read_u32_at(bytes, at, order) as usize
    }
}

/// Appends the bytes of `value`.
pub fn push_u16(bytes: &mut Vec<u8>, value: u16, order: ByteOrder)
    ensures
        final(bytes)@ == old(bytes)@ + u16_bytes(value, order),
{
    let ghost before = bytes@;
    let low: u8 = (value % 256) as u8;
    let high: u8 = (value / 256) as u8;
    match order {
        ByteOrder::Little => {
            bytes.push(low);
            bytes.push(high);
        },
        ByteOrder::Big => {
            bytes.push(high);
            bytes.push(low);
        },
    }
    assert(bytes@ =~= before + u16_bytes(value, order));
}

/// Appends the bytes of `value`.
pub fn push_u32(bytes: &mut Vec<u8>, value: u32, order: ByteOrder)
    ensures
        final(bytes)@ == old(bytes)@ + u32_bytes(value, order),
{
    let ghost before = bytes@;
    let b0: u8 = (value % 256) as u8;
    let b1: u8 = (value / 256 % 256) as u8;
    let b2: u8 = (value / 65536 % 256) as u8;
    let b3: u8 = (value / 16777216) as u8;
    match order {
        ByteOrder::Little => {
            bytes.push(b0);
            bytes.push(b1);
            bytes.push(b2);
            bytes.push(b3);
        },
        ByteOrder::Big => {
            bytes.push(b3);
            bytes.push(b2);
            bytes.push(b1);
            bytes.push(b0);
        },
    }
    assert(bytes@ =~= before + u32_bytes(value, order));
}

/// Appends the bytes of `value`.
pub fn push_u64(bytes: &mut Vec<u8>, value: u64, order: ByteOrder)
    ensures
        final(bytes)@ == old(bytes)@ + u64_bytes(value, order),
{
    let ghost before = bytes@;
    let low: u32 = (value % 4294967296) as u32;
    let high: u32 = (value / 4294967296) as u32;
    match order {
        ByteOrder::Little => {
            push_u32(bytes, low, order);
            push_u32(bytes, high, order);
        },
        ByteOrder::Big => {
            push_u32(bytes, high, order);
            push_u32(bytes, low, order);
        },
    }
    assert(bytes@ =~= before + u64_bytes(value, order));
}

/// Appends the bytes of each of `values`.
pub fn push_words_16(bytes: &mut Vec<u8>, values: &Vec<u16>, order: ByteOrder)
    ensures
        final(bytes)@ == old(bytes)@ + words_16(values@, order),
{
    let ghost before = bytes@;
    let mut i: usize = 0;
    while i < values.len()
        invariant
            i <= values@.len(),
            bytes@ == before + words_16(values@.take(i as int), order),
        decreases values@.len() - i,
    {
        push_u16(bytes, values[i], order);
        i = i + 1;
        let ghost done = values@.take(i as int);
        assert(done.drop_last() =~= values@.take(i - 1));
        assert(bytes@ =~= before + words_16(done, order));
    }
    assert(values@.take(i as int) =~= values@);
}

/// Appends the bytes of each of `values`.
pub fn push_words_32(bytes: &mut Vec<u8>, values: &Vec<u32>, order: ByteOrder)
    ensures
        final(bytes)@ == old(bytes)@ + words_32(values@, order),
{
    let ghost before = bytes@;
    let mut i: usize = 0;
    while i < values.len()
        invariant
            i <= values@.len(),
            bytes@ == before + words_32(values@.take(i as int), order),
        decreases values@.len() - i,
    {
        push_u32(bytes, values[i], order);
        i = i + 1;
        let ghost done = values@.take(i as int);
        assert(done.drop_last() =~= values@.take(i - 1));
        assert(bytes@ =~= before + words_32(done, order));
    }
    assert(values@.take(i as int) =~= values@);
}

/// Appends the bytes of each of `values`.
pub fn push_words_64(bytes: &mut Vec<u8>, values: &Vec<u64>, order: ByteOrder)
    ensures
        final(bytes)@ == old(bytes)@ + words_64(values@, order),
{
    let ghost before = bytes@;
    let mut i: usize = 0;
    while i < values.len()
        invariant
            i <= values@.len(),
            bytes@ == before + words_64(values@.take(i as int), order),
        decreases values@.len() - i,
    {
        push_u64(bytes, values[i], order);
        i = i + 1;
        let ghost done = values@.take(i as int);
        assert(done.drop_last() =~= values@.take(i - 1));
        assert(bytes@ =~= before + words_64(done, order));
    }
    assert(values@.take(i as int) =~= values@);
}

} // verus!
