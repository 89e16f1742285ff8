//! The cache of decisions: a fixed number of slots, of which the oldest gives way.

use vstd::prelude::*;

use crate::confidence::Confidence;
use crate::storage;
use crate::storage::{
    ApplicationIdentity, ImageName, ProcessPolicyEncoding, StorageError, StoredProcessDecision,
    DECISION_CACHE_CAPACITY,
};
use crate::text;

verus! {

/// Whose decision a slot holds, and when it was last used. A slot with an empty name or without a
/// time is free.
#[derive(Debug, Eq, PartialEq)]
pub struct CachedImage {
    pub image: ImageName,
    pub timestamp: u64,
}

#[derive(Clone, Copy, Debug, Eq, PartialEq, Structural)]
pub struct CachedValue {
    pub decision: u8,
    pub confidence: Confidence,
}

/// The names and times of the slots.
pub open spec fn slots(entries: Seq<CachedImage>) -> Seq<(Seq<char>, u64)> {
    entries.map_values(|entry: CachedImage| (entry.image@, entry.timestamp))
}

pub open spec fn is_free(slot: (Seq<char>, u64)) -> bool {
    slot.1 == 0 || slot.0.len() == 0
}

/// The first slot from `from` on that is free or belongs to `image`, or the number of slots if
/// there is none.
pub open spec fn first_stop(all: Seq<(Seq<char>, u64)>, image: Seq<char>, from: int) -> int
    decreases all.len() - from,
{
    if from >= all.len() {
        all.len() as int
    } else if is_free(all[from]) || all[from].0 == image {
        from
    } else {
        first_stop(all, image, from + 1)
    }
}

/// The first of the slots with the earliest time.
pub open spec fn oldest(all: Seq<(Seq<char>, u64)>) -> int
    decreases all.len(),
{
    if all.len() <= 1 {
        0
    } else {
        let before = oldest(all.drop_last());
        if all.last().1 < all[before].1 {
            all.len() - 1
        } else {
            before
        }
    }
}

/// The slot of an image, or the slot that it may take.
#[derive(Clone, Copy, Debug, Eq, PartialEq, Structural)]
pub enum DecisionCacheSlot {
    Existing(usize),
    Replacement(usize),
}

/// What a continued search comes to.
#[derive(Clone, Copy, Debug, Eq, PartialEq, Structural)]
pub enum DecisionCacheContinuation {
    Existing(usize),
    Empty(usize),
    Exhausted,
}

/// The slot of `image`, or the one it may take: the first free slot or, where none is free, the
/// oldest.
pub open spec fn slot_of(all: Seq<(Seq<char>, u64)>, image: Seq<char>) -> DecisionCacheSlot {
    let stop = first_stop(all, image, 0);
    if stop >= all.len() {
        DecisionCacheSlot::Replacement(oldest(all) as usize)
    } else if is_free(all[stop]) {
        DecisionCacheSlot::Replacement(stop as usize)
    } else {
        DecisionCacheSlot::Existing(stop as usize)
    }
}

pub open spec fn continued(
    all: Seq<(Seq<char>, u64)>,
    image: Seq<char>,
    from: int,
) -> DecisionCacheContinuation {
    let stop = first_stop(all, image, from);
    if stop >= all.len() {
        DecisionCacheContinuation::Exhausted
    } else if is_free(all[stop]) {
        DecisionCacheContinuation::Empty(stop as usize)
    } else {
        DecisionCacheContinuation::Existing(stop as usize)
    }
}

/// The slot of `image` when it was at `index` a moment ago: still there, further on, or to be
/// searched for anew.
pub open spec fn confirmed(
    all: Seq<(Seq<char>, u64)>,
    image: Seq<char>,
    index: int,
) -> DecisionCacheSlot {
    if 0 <= index < all.len() && !is_free(all[index]) && all[index].0 == image {
        DecisionCacheSlot::Existing(index as usize)
    } else {
        match continued(all, image, index + 1) {
            DecisionCacheContinuation::Existing(found) => DecisionCacheSlot::Existing(found),
            DecisionCacheContinuation::Empty(found) => DecisionCacheSlot::Replacement(found),
            DecisionCacheContinuation::Exhausted => slot_of(all, image),
        }
    }
}

pub proof fn lemma_oldest(all: Seq<(Seq<char>, u64)>)
    ensures
        all.len() > 0 ==> 0 <= oldest(all) < all.len(),
        all.len() == 0 ==> oldest(all) == 0,
        forall|j: int| 0 <= j < all.len() ==> all[oldest(all)].1 <= (#[trigger] all[j]).1,
        forall|j: int| 0 <= j < oldest(all) ==> all[oldest(all)].1 < (#[trigger] all[j]).1,
    decreases all.len(),
{
    if all.len() > 1 {
        let shorter = all.drop_last();
        lemma_oldest(shorter);
        assert forall|j: int| 0 <= j < all.len() implies all[oldest(all)].1 <= (#[trigger] all[j]).1 by {
            if j < shorter.len() {
                assert(shorter[j] == all[j]);
            }
        }
        assert forall|j: int| 0 <= j < oldest(all) implies all[oldest(all)].1 < (
        #[trigger] all[j]).1 by {
            assert(shorter[j] == all[j]);
        }
    }
}

pub proof fn lemma_first_stop(all: Seq<(Seq<char>, u64)>, image: Seq<char>, from: int)
    requires
        0 <= from <= all.len(),
    ensures
        from <= first_stop(all, image, from) <= all.len(),
        forall|j: int|
            from <= j < first_stop(all, image, from) ==> !is_free(#[trigger] all[j]) && all[j].0
                != image,
        first_stop(all, image, from) < all.len() ==> is_free(all[first_stop(all, image, from)])
            || all[first_stop(all, image, from)].0 == image,
    decreases all.len() - from,
{
    if from < all.len() && !is_free(all[from]) && all[from].0 != image {
        lemma_first_stop(all, image, from + 1);
    }
}

pub fn scan_decision_cache(entries: &Vec<CachedImage>, image: &ImageName) -> (slot:
    DecisionCacheSlot)
    ensures
        slot == slot_of(slots(entries@), image@),
{
    let ghost all = slots(entries@);
    let mut oldest_index: usize = 0;
    let mut oldest_timestamp: u64 = u64::MAX;
    let mut index: usize = 0;
    while index < entries.len()
        invariant
            index <= entries@.len(),
            all == slots(entries@),
            first_stop(all, image@, 0) == first_stop(all, image@, index as int),
            oldest_index == oldest(all.subrange(0, index as int)),
            index == 0 ==> oldest_timestamp == u64::MAX && oldest_index == 0,
            index > 0 ==> oldest_index < index && oldest_timestamp == all[oldest_index as int].1,
        decreases entries@.len() - index,
    {
        let entry = &entries[index];
        assert(all[index as int] == (entry.image@, entry.timestamp));
        if entry.timestamp == 0 {
            return DecisionCacheSlot::Replacement(index);
        }
        if entry.image.is_empty() {
            return DecisionCacheSlot::Replacement(index);
        }
        if entry.image.same_name(image) {
            return DecisionCacheSlot::Existing(index);
        }
        let ghost longer = all.subrange(0, index + 1);
        assert(longer.drop_last() =~= all.subrange(0, index as int));
        assert(longer.last() == all[index as int]);
        if entry.timestamp < oldest_timestamp {
            oldest_timestamp = entry.timestamp;
            oldest_index = index;
        } else if index == 0 {
            oldest_timestamp = entry.timestamp;
        }
        index = index + 1;
    }
    assert(all.subrange(0, all.len() as int) =~= all);
    DecisionCacheSlot::Replacement(oldest_index)
}

pub fn continue_decision_cache_scan(
    entries: &Vec<CachedImage>,
    image: &ImageName,
    start_index: usize,
) -> (found: DecisionCacheContinuation)
    ensures
        found == continued(slots(entries@), image@, start_index as int),
{
    let ghost all = slots(entries@);
    let mut index: usize = start_index;
    while index < entries.len()
        invariant
            start_index <= index,
            index <= entries@.len() || index == start_index,
            all == slots(entries@),
            first_stop(all, image@, start_index as int) == first_stop(all, image@, index as int),
        decreases entries@.len() - index,
    {
        let entry = &entries[index];
        assert(all[index as int] == (entry.image@, entry.timestamp));
        if entry.timestamp == 0 || entry.image.is_empty() {
            return DecisionCacheContinuation::Empty(index);
        }
        if entry.image.same_name(image) {
            return DecisionCacheContinuation::Existing(index);
        }
        index = index + 1;
    }
    DecisionCacheContinuation::Exhausted
}

/// Finds the slot of `image` when it was at `index` a moment ago.
pub fn confirm_decision_cache_slot(
    entries: &Vec<CachedImage>,
    image: &ImageName,
    index: usize,
) -> (slot: DecisionCacheSlot)
    requires
        index < entries@.len(),
    ensures
        slot == confirmed(slots(entries@), image@, index as int),
{
    let ghost all = slots(entries@);
    let entry = &entries[index];
    assert(all[index as int] == (entry.image@, entry.timestamp));
    if entry.timestamp != 0 && !entry.image.is_empty() && entry.image.same_name(image) {
        return DecisionCacheSlot::Existing(index);
    }
    assert(index < entries.len());
    match continue_decision_cache_scan(entries, image, index + 1) {
        DecisionCacheContinuation::Existing(found) => DecisionCacheSlot::Existing(found),
        DecisionCacheContinuation::Empty(found) => DecisionCacheSlot::Replacement(found),
        DecisionCacheContinuation::Exhausted => scan_decision_cache(entries, image),
    }
}

/// The time of a use of the cache, in milliseconds since the epoch. It is never zero, which would
/// mean a free slot.
pub fn decision_cache_timestamp(millis: Option<u128>) -> (timestamp: u64)
    ensures
        timestamp == match millis {
            Some(millis) => if millis > u64::MAX {
                u64::MAX as int
            } else if millis == 0 {
                1
            } else {
                millis as int
            },
            None => 1,
        },
        timestamp > 0,
{
    match millis {
        Some(millis) => if millis > u64::MAX as u128 {
            u64::MAX
        } else if millis == 0 {
            1
        } else {
            millis as u64
        },
        None => 1,
    }
}

/// What was found in the cache for an image.
#[derive(Debug, Eq, PartialEq)]
pub struct DecisionCacheLookup {
    pub replacement_index: usize,
    pub hit: bool,
    pub image: ImageName,
    pub decision: ProcessPolicyEncoding,
    pub confidence: Confidence,
}

/// Nothing was found, and `index` is the slot that the image may take.
pub open spec fn is_miss(lookup: DecisionCacheLookup, index: usize) -> bool {
    &&& lookup.replacement_index == index
    &&& !lookup.hit
    &&& lookup.image@.len() == 0
    &&& lookup.decision.0 == 0
    &&& lookup.confidence.bits == 0
}

pub fn cache_miss_lookup(replacement_index: usize) -> (lookup: DecisionCacheLookup)
    ensures
        is_miss(lookup, replacement_index),
{
    DecisionCacheLookup {
        replacement_index,
        hit: false,
        image: ImageName::empty(),
        decision: ProcessPolicyEncoding(0),
        confidence: Confidence { bits: 0 },
    }
}

/// The cached decisions.
#[derive(Debug)]
pub struct DecisionCache {
    pub images: Vec<CachedImage>,
    pub values: Vec<CachedValue>,
}

impl DecisionCache {
    pub open spec fn wf(self) -> bool {
        &&& self.images@.len() == DECISION_CACHE_CAPACITY
        &&& self.values@.len() == DECISION_CACHE_CAPACITY
    }

    /// A cache whose slots are all free.
    pub fn new() -> (cache: Self)
        ensures
            cache.wf(),
            forall|i: int| 0 <= i < cache.images@.len() ==> is_free(#[trigger] slots(cache.images@)[i]),
    {
        let mut images: Vec<CachedImage> = Vec::new();
        let mut values: Vec<CachedValue> = Vec::new();
        let mut i: usize = 0;
        while i < DECISION_CACHE_CAPACITY
            invariant
                i <= DECISION_CACHE_CAPACITY,
                images@.len() == i,
                values@.len() == i,
                forall|j: int| 0 <= j < i ==> (#[trigger] images@[j]).timestamp == 0,
            decreases DECISION_CACHE_CAPACITY - i,
        {
            images.push(CachedImage { image: ImageName::empty(), timestamp: 0 });
            values.push(CachedValue { decision: 0, confidence: Confidence { bits: 0 } });
            i = i + 1;
        }
        DecisionCache { images, values }
    }

    /// Finds the slot of `image`.
    pub fn find(&self, image: &ImageName) -> (slot: DecisionCacheSlot)
        requires
            self.wf(),
        ensures
            slot == slot_of(slots(self.images@), image@),
            slot matches DecisionCacheSlot::Existing(index) ==> index < DECISION_CACHE_CAPACITY,
            slot matches DecisionCacheSlot::Replacement(index) ==> index < DECISION_CACHE_CAPACITY,
    {
        proof {
            lemma_first_stop(slots(self.images@), image@, 0);
            lemma_oldest(slots(self.images@));
        }
        scan_decision_cache(&self.images, image)
    }

    /// Reads the decision for `image`, which was at `index` a moment ago, and notes its use.
    pub fn read_at(&mut self, image: &ImageName, index: usize, timestamp: u64) -> (lookup:
        DecisionCacheLookup)
        requires
            old(self).wf(),
            index < DECISION_CACHE_CAPACITY,
        ensures
            final(self).wf(),
            final(self).values == old(self).values,
            match confirmed(slots(old(self).images@), image@, index as int) {
                DecisionCacheSlot::Existing(found) => {
                    &&& found < DECISION_CACHE_CAPACITY
                    &&& lookup.replacement_index == found
                    &&& lookup.hit
                    &&& lookup.image@ == image@
                    &&& lookup.decision.0 == old(self).values@[found as int].decision
                    &&& lookup.confidence == old(self).values@[found as int].confidence
                    &&& slots(final(self).images@) == slots(old(self).images@).update(
                        found as int,
                        (image@, timestamp),
                    )
                },
                DecisionCacheSlot::Replacement(found) => is_miss(lookup, found)
                    && final(self).images == old(self).images,
            },
    {
        let ghost all = slots(self.images@);
        proof {
            lemma_first_stop(all, image@, 0);
            lemma_first_stop(all, image@, index + 1);
            lemma_oldest(all);
        }
        match confirm_decision_cache_slot(&self.images, image, index) {
            DecisionCacheSlot::Existing(found) => {
                assert(all[found as int].0 == image@);
                let value = self.values[found];
                self.images.set(found, CachedImage { image: image.clone(), timestamp });
                assert(slots(self.images@) =~= all.update(found as int, (image@, timestamp)));
                DecisionCacheLookup {
                    replacement_index: found,
                    hit: true,
                    image: image.clone(),
                    decision: ProcessPolicyEncoding(value.decision),
                    confidence: value.confidence,
                }
            },
            DecisionCacheSlot::Replacement(found) => cache_miss_lookup(found),
        }
    }

    /// Reads the decision for `image` and notes its use.
    pub fn read_decision_cache(&mut self, image: &ImageName, timestamp: u64) -> (lookup:
        DecisionCacheLookup)
        requires
            old(self).wf(),
        ensures
            final(self).wf(),
            final(self).values == old(self).values,
            match slot_of(slots(old(self).images@), image@) {
                DecisionCacheSlot::Existing(found) => {
                    &&& found < DECISION_CACHE_CAPACITY
                    &&& lookup.replacement_index == found
                    &&& lookup.hit
                    &&& lookup.image@ == image@
                    &&& lookup.decision.0 == old(self).values@[found as int].decision
                    &&& lookup.confidence == old(self).values@[found as int].confidence
                    &&& slots(final(self).images@) == slots(old(self).images@).update(
                        found as int,
                        (image@, timestamp),
                    )
                },
                DecisionCacheSlot::Replacement(found) => is_miss(lookup, found)
                    && final(self).images == old(self).images,
            },
    {
        proof {
            lemma_first_stop(slots(self.images@), image@, 0);
        }
        match self.find(image) {
            DecisionCacheSlot::Existing(index) => self.read_at(image, index, timestamp),
            DecisionCacheSlot::Replacement(index) => cache_miss_lookup(index),
        }
    }

    /// Puts a decision into its slot, or into the one it may take.
    pub fn write_decision_cache(&mut self, decision: &StoredProcessDecision, timestamp: u64)
        requires
            old(self).wf(),
        ensures
            final(self).wf(),
            slots(final(self).images@) == written(
                slots(old(self).images@),
                decision.identity.image@,
                timestamp,
            ),
            final(self).values@ == old(self).values@.update(
                slot_index(slot_of(slots(old(self).images@), decision.identity.image@)),
                (CachedValue {
                    decision: decision.decision.0,
                    confidence: decision.confidence,
                }),
            ),
    {
        let ghost all = slots(self.images@);
        let index: usize = match self.find(&decision.identity.image) {
            DecisionCacheSlot::Existing(index) => index,
            DecisionCacheSlot::Replacement(index) => index,
        };
        self.values.set(
            index,
            CachedValue { decision: decision.decision.0, confidence: decision.confidence },
        );
        self.images.set(index, CachedImage { image: decision.identity.image.clone(), timestamp });
        assert(slots(self.images@) =~= all.update(
            index as int,
            (decision.identity.image@, timestamp),
        ));
    }
}

pub open spec fn slot_index(slot: DecisionCacheSlot) -> int {
    match slot {
        DecisionCacheSlot::Existing(index) => index as int,
        DecisionCacheSlot::Replacement(index) => index as int,
    }
}

/// The slots after a decision for `image` was written at the time `timestamp`.
pub open spec fn written(
    all: Seq<(Seq<char>, u64)>,
    image: Seq<char>,
    timestamp: u64,
) -> Seq<(Seq<char>, u64)> {
    all.update(slot_index(slot_of(all, image)), (image, timestamp))
}

/// A decision that was written is found again, in the slot it was written to.
pub proof fn law_cache_reads_back(all: Seq<(Seq<char>, u64)>, image: Seq<char>, timestamp: u64)
    requires
        0 < all.len() <= usize::MAX,
        image.len() > 0,
        timestamp > 0,
    ensures
        slot_of(written(all, image, timestamp), image) == DecisionCacheSlot::Existing(
            slot_index(slot_of(all, image)) as usize,
        ),
{
    let k = slot_index(slot_of(all, image));
    let after = written(all, image, timestamp);
    lemma_first_stop(all, image, 0);
    lemma_oldest(all);
    lemma_first_stop(after, image, 0);
    let stop = first_stop(all, image, 0);
    let found = first_stop(after, image, 0);
    assert(0 <= k < all.len());
    assert(after[k] == (image, timestamp));
    if found > k {
        assert(after[k].0 != image);
    }
    if found < k {
        assert(after[found] == all[found]);
        assert(k <= stop);
    }
}

/// Writing a decision for one image leaves the slots of all others but the one it takes alone.
pub proof fn law_cache_keeps_other_slots(
    all: Seq<(Seq<char>, u64)>,
    image: Seq<char>,
    timestamp: u64,
    i: int,
)
    requires
        0 <= i < all.len() <= usize::MAX,
        i != slot_index(slot_of(all, image)),
    ensures
        written(all, image, timestamp)[i] == all[i],
{
    lemma_first_stop(all, image, 0);
    lemma_oldest(all);
}

/// Where every slot is taken, the one that gives way was used no later than any other.
pub proof fn law_oldest_slot_gives_way(all: Seq<(Seq<char>, u64)>, image: Seq<char>, j: int)
    requires
        0 <= j < all.len() <= usize::MAX,
        forall|i: int| 0 <= i < all.len() ==> !is_free(#[trigger] all[i]) && all[i].0 != image,
    ensures
        slot_of(all, image) is Replacement,
        all[slot_index(slot_of(all, image))].1 <= all[j].1,
{
    lemma_first_stop(all, image, 0);
    lemma_oldest(all);
}

/// The words of `u8::try_from` for an integer that does not fit.
pub uninterp spec fn byte_conversion_error(value: i64) -> Seq<char>;

/// `u8::try_from` on an `i64`: the same number, if it fits. The words of the error are left to
/// [`byte_conversion_error`].
#[verifier::external_body]
fn byte_of(value: i64) -> (byte: Result<u8, String>)
    ensures
        match byte {
            Ok(byte) => byte == value,
            Err(message) => !(0 <= value <= 255) && message@ == byte_conversion_error(value),
        },
{
    u8::try_from(value).map_err(|error| error.to_string())
}

/// The decimal digits of `value`, with a sign where it is negative.
pub open spec fn signed_decimal(value: i64) -> Seq<char> {
    if value < 0 {
        "-"@ + text::decimal((-(value as int)) as nat)
    } else {
        text::decimal(value as nat)
    }
}

fn signed_text(value: i64) -> (digits: String)
    ensures
        digits@ == signed_decimal(value),
{
    if value < 0 {
        let magnitude: u64 = (-(value + 1)) as u64 + 1;
        let mut digits = "-".to_string();
        text::append(&mut digits, text::decimal_text(magnitude).as_str());
        digits
    } else {
        text::decimal_text(value as u64)
    }
}

/// A row of the table of decisions.
#[derive(Debug, Eq, PartialEq)]
pub struct DecisionRow {
    pub image: String,
    pub decision: i64,
    pub confidence: Confidence,
}

/// The words that refuse a bit mask that does not fit in a byte.
pub open spec fn out_of_range(decision: i64) -> Seq<char> {
    "stored decision bitmask "@ + signed_decimal(decision) + " is outside u8 range: "@
        + byte_conversion_error(decision)
}

/// What a row says.
pub open spec fn reads_row(
    row: DecisionRow,
    path: Option<String>,
    decision: Result<StoredProcessDecision, StorageError>,
) -> bool {
    let name = crate::identity::lowercase_name(row.image@);
    if name.len() > storage::MAX_IMAGE_NAME_CHARS {
        decision matches Err(error) && error == StorageError::ImageNameTooLong
    } else if !(0 <= row.decision <= 255) {
        decision matches Err(StorageError::InvalidStoredValue(message)) && message@ == out_of_range(
            row.decision,
        )
    } else if !storage::is_valid(ProcessPolicyEncoding(row.decision as u8), row.confidence) {
        decision matches Err(error) && storage::refuses(
            error,
            ProcessPolicyEncoding(row.decision as u8),
            row.confidence,
        )
    } else {
        decision matches Ok(decision) && decision.identity.image@ == name
            && crate::linux_process::same_option(decision.identity.image_path, path)
            && decision.decision.0 == row.decision && decision.confidence == row.confidence
    }
}

/// The decision that a row holds, for an application whose image is at `path`.
pub fn decision_from_row(row: DecisionRow, path: &Option<String>) -> (decision: Result<
    StoredProcessDecision,
    StorageError,
>)
    ensures
        reads_row(row, *path, decision),
{
    let image = match ImageName::from_db(row.image.as_str()) {
        Ok(image) => image,
        Err(error) => {
            return Err(error);
        },
    };
    let bits = match byte_of(row.decision) {
        Ok(bits) => bits,
        Err(reason) => {
            let mut message = "stored decision bitmask ".to_string();
            text::append(&mut message, signed_text(row.decision).as_str());
            text::append(&mut message, " is outside u8 range: ");
            text::append(&mut message, reason.as_str());
            return Err(StorageError::InvalidStoredValue(message));
        },
    };
    let decision = StoredProcessDecision {
        identity: ApplicationIdentity {
            image,
            image_path: crate::linux_process::copy_option(path),
        },
        decision: ProcessPolicyEncoding(bits),
        confidence: row.confidence,
    };
    match decision.validate() {
        Ok(_) => Ok(decision),
        Err(error) => Err(error),
    }
}

/// The decision that a hit in the cache stands for, for an application whose image is at `path`.
pub fn decision_from_cache(lookup: DecisionCacheLookup, path: &Option<String>) -> (decision: Result<
    StoredProcessDecision,
    StorageError,
>)
    ensures
        match decision {
            Ok(decision) => {
                &&& storage::is_valid(lookup.decision, lookup.confidence)
                &&& decision.identity.image@ == lookup.image@
                &&& crate::linux_process::same_option(decision.identity.image_path, *path)
                &&& decision.decision == lookup.decision
                &&& decision.confidence == lookup.confidence
            },
            Err(error) => !storage::is_valid(lookup.decision, lookup.confidence)
                && storage::refuses(error, lookup.decision, lookup.confidence),
        },
{
    let decision = StoredProcessDecision {
        identity: ApplicationIdentity {
            image: lookup.image,
            image_path: crate::linux_process::copy_option(path),
        },
        decision: lookup.decision,
        confidence: lookup.confidence,
    };
    match decision.validate() {
        Ok(_) => Ok(decision),
        Err(error) => Err(error),
    }
}

} // verus!
