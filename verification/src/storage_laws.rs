//! What holds of decisions: how they are stored, cached and known beforehand.

use vstd::prelude::*;

use crate::affinity;
use crate::affinity::{AffinityExpression, AffinityTerm};
use crate::confidence::Confidence;
use crate::decision_cache;
use crate::decision_cache::{
    CachedImage, DecisionCache, DecisionCacheContinuation, DecisionCacheLookup, DecisionCacheSlot,
    DecisionRow,
};
use crate::defaults;
use crate::defaults::{BuiltinDecision, ObservedProcess, StaticPolicy};
use crate::exclusion;
use crate::exclusion::ExclusionList;
use crate::identity;
use crate::process::{ProcessMode, ProcessRule};
use crate::storage;
use crate::storage::{
    ApplicationIdentity, ImageName, ProcessPolicyEncoding, StorageError, StoredProcessDecision,
};
use crate::text;

verus! {

/// What a mode is worth in a stored decision.
pub open spec fn mode_worth(mode: ProcessMode) -> int {
    match mode {
        ProcessMode::Normal => 0,
        ProcessMode::Efficiency => 1,
        ProcessMode::Realtime => 2,
        ProcessMode::Performance => 64,
    }
}

/// What a term is worth in a stored decision, where it is among `terms`.
pub open spec fn term_worth(terms: Seq<AffinityTerm>, term: AffinityTerm) -> int {
    if !terms.contains(term) {
        0
    } else {
        match term {
            AffinityTerm::Performance => 4,
            AffinityTerm::Efficiency => 8,
            AffinityTerm::LowPowerEfficiency => 16,
            AffinityTerm::Cache => 32,
            AffinityTerm::LogicalIndex(_) => 0,
        }
    }
}

proof fn lemma_bits_add_up(m: u8, p: u8, e: u8, l: u8, c: u8)
    requires
        m == 0 || m == 1 || m == 2 || m == 64,
        p == 0 || p == 4,
        e == 0 || e == 8,
        l == 0 || l == 16,
        c == 0 || c == 32,
    ensures
        (m | p | e | l | c) == m + p + e + l + c,
{
    assert((m | p | e | l | c) == m + p + e + l + c) by (bit_vector)
        requires
            m == 0 || m == 1 || m == 2 || m == 64,
            p == 0 || p == 4,
            e == 0 || e == 8,
            l == 0 || l == 16,
            c == 0 || c == 32,
    ;
}

proof fn lemma_places(bits: u8)
    ensures
        bits & 4 != 0 <==> (bits / 4) % 2 == 1,
        bits & 8 != 0 <==> (bits / 8) % 2 == 1,
        bits & 16 != 0 <==> (bits / 16) % 2 == 1,
        bits & 32 != 0 <==> (bits / 32) % 2 == 1,
        bits & 128 == 0 <==> bits < 128,
        bits & 67 == bits % 4 + 64 * ((bits / 64) % 2),
{
    assert((bits & 4 != 0 <==> (bits / 4) % 2 == 1) && (bits & 8 != 0 <==> (bits / 8) % 2 == 1) && (
    bits & 16 != 0 <==> (bits / 16) % 2 == 1) && (bits & 32 != 0 <==> (bits / 32) % 2 == 1) && (bits
        & 128 == 0 <==> bits < 128) && (bits & 67 == bits % 4 + 64 * ((bits / 64) % 2)))
        by (bit_vector);
}

/// A stored decision is the sum of what its mode and its tiers are worth.
pub proof fn law_decision_is_the_sum_of_its_parts(
    mode: ProcessMode,
    expression: Option<&AffinityExpression>,
    encoding: Result<ProcessPolicyEncoding, String>,
)
    requires
        call_ensures(ProcessPolicyEncoding::new, (mode, expression), encoding),
    ensures
        ({
            let terms = match expression {
                Some(expression) => expression.terms@,
                None => Seq::empty(),
            };
            encoding matches Ok(encoding) && encoding.0 == mode_worth(mode) + term_worth(
                terms,
                AffinityTerm::Performance,
            ) + term_worth(terms, AffinityTerm::Efficiency) + term_worth(
                terms,
                AffinityTerm::LowPowerEfficiency,
            ) + term_worth(terms, AffinityTerm::Cache)
        }),
{
    let terms = storage::expression_terms(storage::expression_value(expression));
    lemma_bits_add_up(
        storage::mode_bit(mode),
        storage::flag(terms.contains(AffinityTerm::Performance), 4),
        storage::flag(terms.contains(AffinityTerm::Efficiency), 8),
        storage::flag(terms.contains(AffinityTerm::LowPowerEfficiency), 16),
        storage::flag(terms.contains(AffinityTerm::Cache), 32),
    );
}

/// The mode of a stored decision is told by the places that are worth one, two and sixty-four, of
/// which one at most may be set.
pub proof fn law_one_place_tells_the_mode(
    encoding: &ProcessPolicyEncoding,
    mode: Result<ProcessMode, String>,
)
    requires
        call_ensures(ProcessPolicyEncoding::mode, (encoding,), mode),
    ensures
        ({
            let one = encoding.0 % 2 == 1;
            let two = (encoding.0 / 2) % 2 == 1;
            let high = (encoding.0 / 64) % 2 == 1;
            &&& (mode matches Ok(ProcessMode::Normal)) <==> !one && !two && !high
            &&& (mode matches Ok(ProcessMode::Efficiency)) <==> one && !two && !high
            &&& (mode matches Ok(ProcessMode::Realtime)) <==> !one && two && !high
            &&& (mode matches Ok(ProcessMode::Performance)) <==> !one && !two && high
        }),
{
    lemma_places(encoding.0);
}

/// The tiers of a stored decision are told by the places that are worth four to thirty-two.
pub proof fn law_places_tell_the_tiers(
    encoding: &ProcessPolicyEncoding,
    p: bool,
    e: bool,
    lpe: bool,
    c: bool,
)
    requires
        call_ensures(ProcessPolicyEncoding::has_p, (encoding,), p),
        call_ensures(ProcessPolicyEncoding::has_e, (encoding,), e),
        call_ensures(ProcessPolicyEncoding::has_lpe, (encoding,), lpe),
        call_ensures(ProcessPolicyEncoding::has_c, (encoding,), c),
    ensures
        p <==> (encoding.0 / 4) % 2 == 1,
        e <==> (encoding.0 / 8) % 2 == 1,
        lpe <==> (encoding.0 / 16) % 2 == 1,
        c <==> (encoding.0 / 32) % 2 == 1,
{
    lemma_places(encoding.0);
}

/// A decision can be used where its confidence is finite, no place beyond the known ones is set,
/// and its places tell one mode.
pub proof fn law_unknown_places_are_refused(
    decision: &StoredProcessDecision,
    valid: Result<(), StorageError>,
    finite: bool,
    mode: Result<ProcessMode, String>,
)
    requires
        call_ensures(StoredProcessDecision::validate, (decision,), valid),
        call_ensures(Confidence::is_finite, (decision.confidence,), finite),
        call_ensures(ProcessPolicyEncoding::mode, (&decision.decision,), mode),
    ensures
        valid is Ok <==> finite && decision.decision.0 < 128 && mode is Ok,
{
    lemma_places(decision.decision.0);
}

/// What was decided is what is read back: the mode, and exactly the tiers among the terms. A
/// decision without tiers leaves the affinity alone.
pub proof fn law_stored_decision_is_read_back(
    identity: ApplicationIdentity,
    mode: ProcessMode,
    expression: Option<AffinityExpression>,
    confidence: Confidence,
    stored: Result<StoredProcessDecision, StorageError>,
    decision: &StoredProcessDecision,
    rule: Result<ProcessRule, StorageError>,
    term: AffinityTerm,
)
    requires
        call_ensures(
            StoredProcessDecision::new,
            (identity, mode, expression, confidence),
            stored,
        ),
        stored == Ok::<StoredProcessDecision, StorageError>(*decision),
        call_ensures(StoredProcessDecision::to_process_rule, (decision,), rule),
    ensures
        decision.identity == identity,
        decision.confidence == confidence,
        rule is Ok,
        rule->Ok_0.mode == mode,
        rule->Ok_0.image_name@ == identity.image@,
        rule->Ok_0.affinity is None <==> (expression matches Some(expression) ==> forall|i: int|
            0 <= i < expression.terms@.len() ==> (#[trigger] expression.terms@[i]) is LogicalIndex),
        rule->Ok_0.affinity is Some ==> rule->Ok_0.affinity->0 is Expression,
        rule->Ok_0.affinity is Some && !(term is LogicalIndex) ==> (
        rule->Ok_0.affinity->0->Expression_0.terms@.contains(term) <==> expression is Some
            && expression->0.terms@.contains(term)),
        rule->Ok_0.affinity is Some ==> affinity::terms_of(
            rule->Ok_0.affinity->0->Expression_0.source@,
        ) == rule->Ok_0.affinity->0->Expression_0.terms@,
{
    let terms = storage::expression_terms(expression);
    let bits = decision.decision.0;
    storage::law_encoding_reads_back(mode, terms);
    assert(storage::is_valid(decision.decision, decision.confidence));
    assert(rule is Ok);
    let found = rule->Ok_0;
    storage::law_stored_decision_reads_back(found, *decision, mode, terms);
    let decoded = storage::decoded_terms(bits);
    assert forall|term: AffinityTerm| #[trigger] decoded.contains(term) <==> !(
    term is LogicalIndex) && terms.contains(term) by {
        storage::lemma_decoded_terms(bits, term);
        if !(term is LogicalIndex) {
            assert(decoded.contains(term) <==> terms.contains(term));
        }
    }
    if found.affinity is None {
        assert(decoded.len() == 0);
        assert forall|i: int| 0 <= i < terms.len() implies (
        #[trigger] terms[i]) is LogicalIndex by {
            if !(terms[i] is LogicalIndex) {
                assert(terms.contains(terms[i]));
                assert(decoded.contains(terms[i]));
            }
        }
    } else {
        assert(decoded.len() > 0);
        assert(decoded.contains(decoded[0]));
        let k = choose|k: int| 0 <= k < terms.len() && terms[k] == decoded[0];
        assert(!(terms[k] is LogicalIndex));
    }
}

/// A decision whose confidence is not finite is not made.
pub proof fn law_endless_confidence_decides_nothing(
    identity: ApplicationIdentity,
    mode: ProcessMode,
    expression: Option<AffinityExpression>,
    confidence: Confidence,
    stored: Result<StoredProcessDecision, StorageError>,
    finite: bool,
)
    requires
        call_ensures(
            StoredProcessDecision::new,
            (identity, mode, expression, confidence),
            stored,
        ),
        call_ensures(Confidence::is_finite, (confidence,), finite),
    ensures
        stored is Ok <==> finite,
{
}

/// A confidence is the 64 bits of a binary floating point number. It is finite where its exponent
/// is not all ones. Of two positive numbers the one with the larger bits reaches the other, of two
/// negative ones the one with the smaller bits, a positive one reaches every negative one, and what
/// is no number neither reaches anything nor is reached.
pub proof fn law_confidences_compare_as_numbers(
    a: Confidence,
    b: Confidence,
    finite: bool,
    enough: bool,
)
    requires
        call_ensures(Confidence::is_finite, (a,), finite),
        call_ensures(Confidence::at_least, (a, b), enough),
    ensures
        a.bits < 0x8000_0000_0000_0000 ==> (finite <==> a.bits < 0x7ff0_0000_0000_0000),
        a.bits >= 0x8000_0000_0000_0000 ==> (finite <==> a.bits < 0xfff0_0000_0000_0000),
        0x7ff0_0000_0000_0000 < a.bits < 0x8000_0000_0000_0000 || a.bits
            > 0xfff0_0000_0000_0000 ==> !enough,
        0x7ff0_0000_0000_0000 < b.bits < 0x8000_0000_0000_0000 || b.bits
            > 0xfff0_0000_0000_0000 ==> !enough,
        a.bits <= 0x7ff0_0000_0000_0000 && b.bits <= 0x7ff0_0000_0000_0000 ==> (enough <==> a.bits
            >= b.bits),
        0x8000_0000_0000_0000 <= a.bits <= 0xfff0_0000_0000_0000 && 0x8000_0000_0000_0000 <= b.bits
            <= 0xfff0_0000_0000_0000 ==> (enough <==> a.bits <= b.bits),
        a.bits <= 0x7ff0_0000_0000_0000 && 0x8000_0000_0000_0000 <= b.bits
            <= 0xfff0_0000_0000_0000 ==> enough,
        0x8000_0000_0000_0000 < a.bits <= 0xfff0_0000_0000_0000 && b.bits
            <= 0x7ff0_0000_0000_0000 ==> !enough,
        a.bits == 0x8000_0000_0000_0000 && b.bits <= 0x7ff0_0000_0000_0000 ==> (enough <==> b.bits
            == 0),
{
}

/// A decision is conclusive where its confidence is at least the threshold.
pub proof fn law_sure_decisions_are_conclusive(
    decision: &StoredProcessDecision,
    threshold: Confidence,
    conclusive: bool,
    enough: bool,
)
    requires
        call_ensures(StoredProcessDecision::is_conclusive, (decision, threshold), conclusive),
        call_ensures(Confidence::at_least, (decision.confidence, threshold), enough),
    ensures
        conclusive <==> enough,
{
}

/// The slot holds a decision: it has a name and a time.
pub open spec fn is_taken(entry: CachedImage) -> bool {
    entry.timestamp != 0 && entry.image@.len() > 0
}

/// The slot holds the decision for another image.
pub open spec fn is_of_another(entry: CachedImage, image: Seq<char>) -> bool {
    is_taken(entry) && entry.image@ != image
}

proof fn lemma_slots(entries: Seq<CachedImage>, i: int)
    requires
        0 <= i < entries.len(),
    ensures
        decision_cache::slots(entries).len() == entries.len(),
        decision_cache::slots(entries)[i] == (entries[i].image@, entries[i].timestamp),
        decision_cache::is_free(decision_cache::slots(entries)[i]) <==> !is_taken(entries[i]),
{
}

/// The search for an image stops at the first slot that is its own or free. Where every slot is
/// taken by others it comes to the first of those that were used longest ago.
pub proof fn law_search_stops_at_the_first_fit(
    entries: &Vec<CachedImage>,
    image: &ImageName,
    slot: DecisionCacheSlot,
)
    requires
        call_ensures(decision_cache::scan_decision_cache, (entries, image), slot),
        entries@.len() > 0,
    ensures
        match slot {
            DecisionCacheSlot::Existing(index) => {
                &&& index < entries@.len()
                &&& is_taken(entries@[index as int]) && entries@[index as int].image@ == image@
                &&& forall|i: int| 0 <= i < index ==> is_of_another(#[trigger] entries@[i], image@)
            },
            DecisionCacheSlot::Replacement(index) => {
                &&& index < entries@.len()
                &&& !is_taken(entries@[index as int]) ==> forall|i: int|
                    0 <= i < index ==> is_of_another(#[trigger] entries@[i], image@)
                &&& is_taken(entries@[index as int]) ==> {
                    &&& forall|i: int|
                        0 <= i < entries@.len() ==> is_of_another(#[trigger] entries@[i], image@)
                            && entries@[index as int].timestamp <= entries@[i].timestamp
                    &&& forall|i: int|
                        0 <= i < index ==> entries@[index as int].timestamp < (
                        #[trigger] entries@[i]).timestamp
                }
            },
        },
{
    let all = decision_cache::slots(entries@);
    assert(entries@.len() == entries.len());
    assert(all.len() == entries@.len());
    decision_cache::lemma_first_stop(all, image@, 0);
    decision_cache::lemma_oldest(all);
    assert forall|i: int| 0 <= i < entries@.len() implies #[trigger] all[i] == (
        entries@[i].image@,
        entries@[i].timestamp,
    ) by {}
    let stop = decision_cache::first_stop(all, image@, 0);
    assert forall|i: int| 0 <= i < stop implies is_of_another(#[trigger] entries@[i], image@) by {
        assert(!decision_cache::is_free(all[i]) && all[i].0 != image@);
    }
    if stop >= all.len() {
        let old = decision_cache::oldest(all);
        assert(is_of_another(entries@[old], image@));
        assert forall|i: int| 0 <= i < entries@.len() implies entries@[old].timestamp <= (
        #[trigger] entries@[i]).timestamp by {
            assert(all[old].1 <= all[i].1);
        }
        assert forall|i: int| 0 <= i < old implies entries@[old].timestamp < (
        #[trigger] entries@[i]).timestamp by {
            assert(all[old].1 < all[i].1);
        }
    }
}

/// A decision that was written is read: the same decision, with the same confidence.
pub proof fn law_written_decision_is_read(
    writing: &mut DecisionCache,
    reading: &mut DecisionCache,
    decision: &StoredProcessDecision,
    written: u64,
    image: &ImageName,
    read: u64,
    lookup: DecisionCacheLookup,
)
    requires
        old(writing).wf(),
        call_ensures(DecisionCache::write_decision_cache, (writing, decision, written), ()),
        *old(reading) == *final(writing),
        image@ == decision.identity.image@,
        image@.len() > 0,
        written > 0,
        call_ensures(DecisionCache::read_decision_cache, (reading, image, read), lookup),
    ensures
        lookup.hit,
        lookup.image@ == image@,
        lookup.decision.0 == decision.decision.0,
        lookup.confidence == decision.confidence,
{
    let all = decision_cache::slots(old(writing).images@);
    assert(old(writing).images@.len() == old(writing).images.len());
    assert(all.len() == old(writing).images@.len());
    decision_cache::law_cache_reads_back(all, image@, written);
    decision_cache::lemma_first_stop(all, image@, 0);
    decision_cache::lemma_oldest(all);
    let at = decision_cache::slot_index(decision_cache::slot_of(all, image@));
    assert(0 <= at < all.len());
    assert(final(writing).values@[at].decision == decision.decision.0);
}

/// A decision that is cached is read as before after another one was written, where the other one
/// had its slot already or found a free one.
pub proof fn law_other_decisions_stay_cached(
    first: &mut DecisionCache,
    writing: &mut DecisionCache,
    last: &mut DecisionCache,
    image: &ImageName,
    decision: &StoredProcessDecision,
    written: u64,
    then: u64,
    now: u64,
    before: DecisionCacheLookup,
    after: DecisionCacheLookup,
    i: int,
)
    requires
        old(first).wf(),
        then > 0,
        written > 0,
        decision.identity.image@.len() > 0,
        call_ensures(DecisionCache::read_decision_cache, (first, image, then), before),
        before.hit,
        *old(writing) == *final(first),
        image@ != decision.identity.image@,
        0 <= i < old(writing).images@.len(),
        !is_taken(old(writing).images@[i]) || old(writing).images@[i].image@
            == decision.identity.image@,
        call_ensures(DecisionCache::write_decision_cache, (writing, decision, written), ()),
        *old(last) == *final(writing),
        call_ensures(DecisionCache::read_decision_cache, (last, image, now), after),
    ensures
        after.hit,
        after.decision == before.decision,
        after.confidence == before.confidence,
{
    let start = decision_cache::slots(old(first).images@);
    let middle = decision_cache::slots(old(writing).images@);
    let end = decision_cache::slots(final(writing).images@);
    let name = decision.identity.image@;
    assert(old(first).images@.len() == old(first).images.len());
    decision_cache::lemma_first_stop(start, image@, 0);
    let at = decision_cache::first_stop(start, image@, 0);
    assert(at < start.len());
    assert(middle =~= start.update(at, (image@, then)));
    decision_cache::lemma_first_stop(middle, name, 0);
    let stop = decision_cache::first_stop(middle, name, 0);
    lemma_slots(old(writing).images@, i);
    if stop >= middle.len() {
        assert(!decision_cache::is_free(middle[i]) && middle[i].0 != name);
    }
    assert(stop < middle.len());
    assert(stop != at);
    assert(end =~= middle.update(stop, (name, written)));
    assert forall|k: int| 0 <= k < at implies !decision_cache::is_free(#[trigger] end[k])
        && end[k].0 != image@ by {
        assert(!decision_cache::is_free(start[k]) && start[k].0 != image@);
    }
    assert(end[at] == (image@, then));
    lemma_stop_at(end, image@, 0, at);
    assert(final(writing).values@[at] == old(writing).values@[at]);
}

proof fn lemma_stop_at(all: Seq<(Seq<char>, u64)>, image: Seq<char>, from: int, at: int)
    requires
        0 <= from <= at < all.len(),
        all[at].0 == image,
        forall|i: int|
            from <= i < at ==> !decision_cache::is_free(#[trigger] all[i]) && all[i].0 != image,
    ensures
        decision_cache::first_stop(all, image, from) == at,
    decreases at - from,
{
    if from < at {
        assert(!decision_cache::is_free(all[from]) && all[from].0 != image);
        lemma_stop_at(all, image, from + 1, at);
    }
}

/// An image that was never written is not found in a new cache.
pub proof fn law_new_cache_is_empty(
    cache: DecisionCache,
    reading: &mut DecisionCache,
    image: &ImageName,
    now: u64,
    lookup: DecisionCacheLookup,
)
    requires
        call_ensures(DecisionCache::new, (), cache),
        *old(reading) == cache,
        call_ensures(DecisionCache::read_decision_cache, (reading, image, now), lookup),
    ensures
        !lookup.hit,
        lookup.replacement_index == 0,
        cache.images@.len() == 320,
{
    let all = decision_cache::slots(cache.images@);
    assert(cache.images@.len() > 0);
    assert(decision_cache::is_free(all[0]));
    assert(decision_cache::first_stop(all, image@, 0) == 0);
}

/// The time of a use is never zero, and is the time that the clock shows where that fits.
pub proof fn law_time_of_use_is_never_zero(millis: Option<u128>, timestamp: u64)
    requires
        call_ensures(decision_cache::decision_cache_timestamp, (millis,), timestamp),
    ensures
        timestamp > 0,
        millis matches Some(millis) ==> (0 < millis <= u64::MAX ==> timestamp == millis) && (millis
            > u64::MAX ==> timestamp == u64::MAX),
{
}

/// A row is read as the decision that it holds: under its name in lower case, for the path that was
/// asked for, where its number fits a byte and can be used.
pub proof fn law_row_is_read_as_its_decision(
    row: DecisionRow,
    path: &Option<String>,
    decision: Result<StoredProcessDecision, StorageError>,
)
    requires
        call_ensures(decision_cache::decision_from_row, (row, path), decision),
    ensures
        row.decision < 0 || row.decision >= 128 ==> decision is Err,
        decision matches Ok(decision) ==> decision.decision.0 == row.decision
            && decision.confidence == row.confidence && decision.identity.image@
            == identity::lowercase_name(row.image@) && decision.identity.image@.len() <= 260 && (
        decision.identity.image_path is Some <==> path is Some),
        forall|encoding: ProcessPolicyEncoding, mode: Result<ProcessMode, String>, finite: bool|
            #![trigger call_ensures(ProcessPolicyEncoding::mode, (&encoding,), mode),
                call_ensures(Confidence::is_finite, (row.confidence,), finite)]
            0 <= row.decision < 128 && encoding.0 == row.decision && call_ensures(
                ProcessPolicyEncoding::mode,
                (&encoding,),
                mode,
            ) && call_ensures(Confidence::is_finite, (row.confidence,), finite)
                && identity::lowercase_name(row.image@).len() <= 260 ==> (decision is Ok <==> finite
                && mode is Ok),
{
    if 0 <= row.decision <= 255 {
        lemma_places(row.decision as u8);
    }
    assert forall|encoding: ProcessPolicyEncoding, mode: Result<ProcessMode, String>, finite: bool|
        #![trigger call_ensures(ProcessPolicyEncoding::mode, (&encoding,), mode),
            call_ensures(Confidence::is_finite, (row.confidence,), finite)]
        0 <= row.decision < 128 && encoding.0 == row.decision && call_ensures(
            ProcessPolicyEncoding::mode,
            (&encoding,),
            mode,
        ) && call_ensures(Confidence::is_finite, (row.confidence,), finite)
            && identity::lowercase_name(row.image@).len() <= 260 implies (decision is Ok <==> finite
        && mode is Ok) by {
        assert(encoding == ProcessPolicyEncoding(row.decision as u8));
        assert(decision_cache::reads_row(row, *path, decision));
    }
}

/// The policies that are known beforehand: of the programs that run in the background, of those
/// that run on the efficient processors, and of the one that keeps its priority there. Of no other
/// program is one known.
pub proof fn law_listed_programs_are_known(name: &ImageName, policy: Option<StaticPolicy>)
    requires
        call_ensures(defaults::static_policy, (name,), policy),
    ensures
        ({
            let quiet = seq![
                "shtctky.exe"@,
                "LITSSvc.exe"@,
                "backgroundTaskHost.exe"@,
                "crashpad_handler.exe"@,
                "PhoneExperienceHost.exe"@,
                "TabTip.exe"@,
                "SpotifyWidgetProvider.exe"@,
                "ElafibsSSPSystemDaemon.exe"@,
                "SmartSense.exe"@,
                "LenovoVantage-(ThinkSpectrumAddin).exe"@,
                "UserSSCtrl.exe"@,
                "WMIRegistrationHost.exe"@,
                "WmiPrvSE.exe"@,
                "wlanext.exe"@,
                "CrossDeviceResume.exe"@,
                "PowerMgr.exe"@,
                "MicrosoftEdgeUpdate.exe"@,
                "IntelProviderDataHelperService.exe"@,
                "WidgetBoard.exe"@,
                "WidgetService.exe"@,
                "MicrosoftStartFeedProvider.exe"@,
                "IntelAnalyticsService.exe"@,
                "TapToXService.exe"@,
                "ElabsTapPlatformService.exe"@,
                "PresentMonService.exe"@,
                "LenovoVantage-(GenericMessagingAddin).exe"@,
                "LenovoVantageService.exe"@,
                "intel_cst_service_standalone.exe"@,
                "ssh-agent.exe"@,
                "SearchHost.exe"@,
                "SearchIndexer.exe"@,
                "localsend_app.exe"@,
                "SpotifyLauncher.exe"@,
                "IntelGraphicsSoftware.Service.exe"@,
                "tposd.exe"@,
            ];
            let efficient = seq![
                "DAX3API.exe"@,
                "ElevocControlService.exe"@,
                "IntelAudioService.exe"@,
                "git.exe"@,
                "ClickToDo.exe"@,
                "msedge.exe"@,
                "Discord.exe"@,
            ];
            let is_quiet = exists|i: int|
                0 <= i < quiet.len() && name@ == text::lowered(#[trigger] quiet[i]);
            let is_efficient = exists|i: int|
                0 <= i < efficient.len() && name@ == text::lowered(#[trigger] efficient[i]);
            let is_player = name@ == text::lowered("Spotify.exe"@);
            &&& policy is Some <==> is_quiet || is_efficient || is_player
            &&& is_quiet ==> (policy matches Some(policy) && policy.mode == ProcessMode::Efficiency
                && affinity::terms_of(policy.affinity@) == seq![AffinityTerm::LowPowerEfficiency])
            &&& is_efficient && !is_quiet ==> (policy matches Some(policy) && policy.mode
                == ProcessMode::Efficiency && affinity::terms_of(policy.affinity@) == seq![
                AffinityTerm::Efficiency,
                AffinityTerm::LowPowerEfficiency,
            ])
            &&& is_player && !is_quiet && !is_efficient ==> (policy matches Some(policy)
                && policy.mode == ProcessMode::Normal && affinity::terms_of(policy.affinity@)
                == seq![AffinityTerm::Efficiency])
        }),
{
    let quiet = seq![
        "shtctky.exe"@,
        "LITSSvc.exe"@,
        "backgroundTaskHost.exe"@,
        "crashpad_handler.exe"@,
        "PhoneExperienceHost.exe"@,
        "TabTip.exe"@,
        "SpotifyWidgetProvider.exe"@,
        "ElafibsSSPSystemDaemon.exe"@,
        "SmartSense.exe"@,
        "LenovoVantage-(ThinkSpectrumAddin).exe"@,
        "UserSSCtrl.exe"@,
        "WMIRegistrationHost.exe"@,
        "WmiPrvSE.exe"@,
        "wlanext.exe"@,
        "CrossDeviceResume.exe"@,
        "PowerMgr.exe"@,
        "MicrosoftEdgeUpdate.exe"@,
        "IntelProviderDataHelperService.exe"@,
        "WidgetBoard.exe"@,
        "WidgetService.exe"@,
        "MicrosoftStartFeedProvider.exe"@,
        "IntelAnalyticsService.exe"@,
        "TapToXService.exe"@,
        "ElabsTapPlatformService.exe"@,
        "PresentMonService.exe"@,
        "LenovoVantage-(GenericMessagingAddin).exe"@,
        "LenovoVantageService.exe"@,
        "intel_cst_service_standalone.exe"@,
        "ssh-agent.exe"@,
        "SearchHost.exe"@,
        "SearchIndexer.exe"@,
        "localsend_app.exe"@,
        "SpotifyLauncher.exe"@,
        "IntelGraphicsSoftware.Service.exe"@,
        "tposd.exe"@,
    ];
    let efficient = seq![
        "DAX3API.exe"@,
        "ElevocControlService.exe"@,
        "IntelAudioService.exe"@,
        "git.exe"@,
        "ClickToDo.exe"@,
        "msedge.exe"@,
        "Discord.exe"@,
    ];
    assert(quiet == defaults::low_power_images());
    assert(efficient == defaults::efficient_images());
    assert(defaults::is_listed(quiet, name@) <==> exists|i: int|
        0 <= i < quiet.len() && name@ == text::lowered(#[trigger] quiet[i]));
    assert(defaults::is_listed(efficient, name@) <==> exists|i: int|
        0 <= i < efficient.len() && name@ == text::lowered(#[trigger] efficient[i]));
    affinity::law_written_terms_read_back(seq![AffinityTerm::LowPowerEfficiency]);
    affinity::law_written_terms_read_back(
        seq![AffinityTerm::Efficiency, AffinityTerm::LowPowerEfficiency],
    );
    affinity::law_written_terms_read_back(seq![AffinityTerm::Efficiency]);
}

/// What is known beforehand is decided as surely as is asked for, for the program and its path, and
/// says the mode of the policy.
pub proof fn law_known_policy_is_decided(
    observed: &ObservedProcess,
    threshold: Confidence,
    policy: Option<StaticPolicy>,
    finite: bool,
    builtin: Option<BuiltinDecision>,
)
    requires
        call_ensures(defaults::static_policy, (&observed.image_name,), policy),
        call_ensures(Confidence::is_finite, (threshold,), finite),
        call_ensures(defaults::builtin_decision, (observed, threshold), builtin),
    ensures
        builtin is Some <==> policy is Some && finite,
        builtin matches Some(builtin) ==> builtin.rule.image_name@ == observed.image_name@
            && builtin.rule.mode == policy->0.mode && builtin.decision.confidence == threshold
            && builtin.decision.identity.image@ == observed.image_name@ && (
        builtin.decision.identity.image_path matches Some(path) && path@ == observed.image_path@),
{
}

/// A program is never classified where its name begins with a listed one, whatever the case.
pub proof fn law_listed_beginnings_exclude(
    list: &ExclusionList,
    name: &ImageName,
    excluded: bool,
)
    requires
        list.is_ready(),
        call_ensures(ExclusionList::is_excluded_image_name, (list, name), excluded),
    ensures
        ({
            let listed = seq![
                "explorer.exe"@,
                "svchost.exe"@,
                "powershell.exe"@,
                "cmd.exe"@,
                "dllhost.exe"@,
                "WUDFHost.exe"@,
                "WUDFCompanionHost.exe"@,
                "WorkloadsSessionManager.exe"@,
                "WorkloadsSessionHost.exe"@,
                "winlogon.exe"@,
                "wininit.exe"@,
                "OpenConsole.exe"@,
                "Notepad.exe"@,
                "services.exe"@,
                "smss.exe"@,
                "sihost.exe"@,
                "SecurityHealthService.exe"@,
                "RuntimeBroker.exe"@,
                "NgcIso.exe"@,
                "MsMpEng.exe"@,
                "MpDefenderCoreService.exe"@,
                "ekrn.exe"@,
                "LockApp.exe"@,
                "WindowsTerminal.exe"@,
                "pwsh.exe"@,
                "ssh-agent.exe"@,
                "csrss.exe"@,
                "lsass.exe"@,
                "Lsalso.exe"@,
                "dwm.exe"@,
                "conhost.exe"@,
                "dasHost.exe"@,
                "AggregatorHost.exe"@,
                "backgroundTaskHost.exe"@,
                "wslservice.exe"@,
                "wslhost.exe"@,
                "wsl.exe"@,
                "vmwp.exe"@,
                "vmcompute.exe"@,
                "vmmem"@,
                "vmmemWSL"@,
                "TiWorker.exe"@,
            ];
            excluded <==> exists|k: int|
                0 <= k < listed.len() && (#[trigger] listed[k]).len() <= name@.len()
                    && text::same_ignoring_case(
                    name@.subrange(0, listed[k].len() as int),
                    listed[k],
                )
        }),
{
    let listed = seq![
        "explorer.exe"@,
        "svchost.exe"@,
        "powershell.exe"@,
        "cmd.exe"@,
        "dllhost.exe"@,
        "WUDFHost.exe"@,
        "WUDFCompanionHost.exe"@,
        "WorkloadsSessionManager.exe"@,
        "WorkloadsSessionHost.exe"@,
        "winlogon.exe"@,
        "wininit.exe"@,
        "OpenConsole.exe"@,
        "Notepad.exe"@,
        "services.exe"@,
        "smss.exe"@,
        "sihost.exe"@,
        "SecurityHealthService.exe"@,
        "RuntimeBroker.exe"@,
        "NgcIso.exe"@,
        "MsMpEng.exe"@,
        "MpDefenderCoreService.exe"@,
        "ekrn.exe"@,
        "LockApp.exe"@,
        "WindowsTerminal.exe"@,
        "pwsh.exe"@,
        "ssh-agent.exe"@,
        "csrss.exe"@,
        "lsass.exe"@,
        "Lsalso.exe"@,
        "dwm.exe"@,
        "conhost.exe"@,
        "dasHost.exe"@,
        "AggregatorHost.exe"@,
        "backgroundTaskHost.exe"@,
        "wslservice.exe"@,
        "wslhost.exe"@,
        "wsl.exe"@,
        "vmwp.exe"@,
        "vmcompute.exe"@,
        "vmmem"@,
        "vmmemWSL"@,
        "TiWorker.exe"@,
    ];
    assert(listed == exclusion::excluded_prefixes());
    if excluded {
        let end = choose|end: int| #[trigger] exclusion::occurs_between(listed, name@, 0, end);
        let k = choose|k: int|
            0 <= k < listed.len() && text::same_ignoring_case(
                name@.subrange(0, end),
                #[trigger] listed[k],
            );
        assert(text::lowered(name@.subrange(0, end)).len() == end);
        assert(text::lowered(listed[k]).len() == listed[k].len());
        assert(listed[k].len() == end);
    }
    if exists|k: int|
        0 <= k < listed.len() && (#[trigger] listed[k]).len() <= name@.len()
            && text::same_ignoring_case(name@.subrange(0, listed[k].len() as int), listed[k]) {
        let k = choose|k: int|
            0 <= k < listed.len() && (#[trigger] listed[k]).len() <= name@.len()
                && text::same_ignoring_case(name@.subrange(0, listed[k].len() as int), listed[k]);
        assert(exclusion::occurs_between(listed, name@, 0, listed[k].len() as int));
    }
}

/// An observed process is known under the lower case of its name, of at most 260 characters.
pub proof fn law_names_are_kept_in_lower_case(
    process_id: u32,
    creation_time: u64,
    name: &str,
    path: &str,
    seconds: i64,
    observed: Result<ObservedProcess, StorageError>,
    at: int,
)
    requires
        call_ensures(
            ObservedProcess::try_new,
            (process_id, creation_time, name, path, seconds),
            observed,
        ),
        identity::is_ascii_text(name@),
    ensures
        observed is Ok <==> name@.len() <= 260,
        observed matches Ok(observed) ==> observed.process_id == process_id
            && observed.creation_time == creation_time && observed.image_path@ == path@
            && observed.observed_unix_seconds == seconds && observed.image_name@.len()
            == name@.len() && (0 <= at < name@.len() ==> observed.image_name@[at] == if 'A'
            <= name@[at] <= 'Z' {
            (name@[at] as u32 + 32) as char
        } else {
            name@[at]
        }),
{
}

/// The seconds that a clock shows are kept, up to what fits; a clock before the epoch shows none.
pub proof fn law_seconds_are_kept(since: Option<u64>, seconds: i64)
    requires
        call_ensures(storage::unix_seconds, (since,), seconds),
    ensures
        since is None ==> seconds == 0,
        since matches Some(since) ==> (since <= i64::MAX ==> seconds == since) && (since
            > i64::MAX ==> seconds == i64::MAX),
{
}

/// A search that goes on stops at the first slot from its start that is unused or belongs to the
/// program, and says which of the two it is.
pub proof fn law_search_goes_on_to_the_first_fit(
    entries: &Vec<CachedImage>,
    image: &ImageName,
    start: usize,
    found: DecisionCacheContinuation,
)
    requires
        call_ensures(
            decision_cache::continue_decision_cache_scan,
            (entries, image, start),
            found,
        ),
    ensures
        match found {
            DecisionCacheContinuation::Existing(index) => {
                &&& start <= index < entries@.len()
                &&& is_taken(entries@[index as int]) && entries@[index as int].image@ == image@
                &&& forall|i: int|
                    start <= i < index ==> is_of_another(#[trigger] entries@[i], image@)
            },
            DecisionCacheContinuation::Empty(index) => {
                &&& start <= index < entries@.len()
                &&& !is_taken(entries@[index as int])
                &&& forall|i: int|
                    start <= i < index ==> is_of_another(#[trigger] entries@[i], image@)
            },
            DecisionCacheContinuation::Exhausted => forall|i: int|
                start <= i < entries@.len() ==> is_of_another(#[trigger] entries@[i], image@),
        },
{
    let all = decision_cache::slots(entries@);
    assert(entries@.len() == entries.len());
    assert(all.len() == entries@.len());
    if start < all.len() {
        decision_cache::lemma_first_stop(all, image@, start as int);
        let stop = decision_cache::first_stop(all, image@, start as int);
        assert forall|i: int| start <= i < stop implies is_of_another(
            #[trigger] entries@[i],
            image@,
        ) by {
            assert(!decision_cache::is_free(all[i]) && all[i].0 != image@);
        }
    }
}

/// A slot that holds the program is confirmed; where it does not, the search goes on behind it, and
/// where nothing fits there it begins anew.
pub proof fn law_held_slot_is_confirmed(
    entries: &Vec<CachedImage>,
    image: &ImageName,
    index: usize,
    slot: DecisionCacheSlot,
    next: usize,
    continued: DecisionCacheContinuation,
    anew: DecisionCacheSlot,
)
    requires
        index < entries@.len(),
        next == index + 1,
        call_ensures(decision_cache::confirm_decision_cache_slot, (entries, image, index), slot),
        call_ensures(
            decision_cache::continue_decision_cache_scan,
            (entries, image, next),
            continued,
        ),
        call_ensures(decision_cache::scan_decision_cache, (entries, image), anew),
    ensures
        is_taken(entries@[index as int]) && entries@[index as int].image@ == image@ ==> slot
            == DecisionCacheSlot::Existing(index),
        !(is_taken(entries@[index as int]) && entries@[index as int].image@ == image@)
            ==> match continued {
            DecisionCacheContinuation::Existing(found) => slot == DecisionCacheSlot::Existing(found),
            DecisionCacheContinuation::Empty(found) => slot == DecisionCacheSlot::Replacement(found),
            DecisionCacheContinuation::Exhausted => slot == anew,
        },
{
    lemma_slots(entries@, index as int);
}

/// A decision that is read at the slot that holds it is the one that stands there, and only the time
/// of its use changes.
pub proof fn law_held_decision_is_read_at_its_slot(
    cache: &mut DecisionCache,
    image: &ImageName,
    index: usize,
    now: u64,
    lookup: DecisionCacheLookup,
    i: int,
)
    requires
        old(cache).wf(),
        index < storage::DECISION_CACHE_CAPACITY,
        call_ensures(DecisionCache::read_at, (cache, image, index, now), lookup),
        is_taken(old(cache).images@[index as int]),
        old(cache).images@[index as int].image@ == image@,
        0 <= i < old(cache).images@.len(),
    ensures
        lookup.hit,
        lookup.replacement_index == index,
        lookup.image@ == image@,
        lookup.decision.0 == old(cache).values@[index as int].decision,
        lookup.confidence == old(cache).values@[index as int].confidence,
        final(cache).values == old(cache).values,
        final(cache).images@.len() == old(cache).images@.len(),
        final(cache).images@[i].image@ == old(cache).images@[i].image@,
        final(cache).images@[i].timestamp == if i == index {
            now
        } else {
            old(cache).images@[i].timestamp
        },
{
    let all = decision_cache::slots(old(cache).images@);
    assert(old(cache).images@.len() == old(cache).images.len());
    assert(all.len() == old(cache).images@.len());
    lemma_slots(old(cache).images@, index as int);
    lemma_slots(old(cache).images@, i);
    let after = decision_cache::slots(final(cache).images@);
    assert(after == all.update(index as int, (image@, now)));
    assert(after.len() == final(cache).images@.len());
    lemma_slots(final(cache).images@, i);
}

/// A miss names the slot that may be written and holds no decision.
pub proof fn law_miss_holds_nothing(index: usize, lookup: DecisionCacheLookup)
    requires
        call_ensures(decision_cache::cache_miss_lookup, (index,), lookup),
    ensures
        !lookup.hit,
        lookup.replacement_index == index,
        lookup.image@.len() == 0,
        lookup.decision.0 == 0,
{
}

/// A cached decision is taken where it is a valid one, and then says what was cached.
pub proof fn law_cached_decision_is_taken_if_valid(
    lookup: DecisionCacheLookup,
    path: &Option<String>,
    finite: bool,
    decision: Result<StoredProcessDecision, StorageError>,
)
    requires
        call_ensures(decision_cache::decision_from_cache, (lookup, path), decision),
        call_ensures(Confidence::is_finite, (lookup.confidence,), finite),
    ensures
        !finite || lookup.decision.0 >= 128 ==> decision is Err,
        decision matches Ok(decision) ==> {
            &&& decision.identity.image@ == lookup.image@
            &&& decision.decision.0 == lookup.decision.0
            &&& decision.confidence == lookup.confidence
            &&& decision.identity.image_path is Some <==> path is Some
            &&& path is Some ==> decision.identity.image_path->0@ == path->0@
        },
{
    let bits = lookup.decision.0;
    assert(bits >= 128u8 ==> bits & 128u8 != 0) by (bit_vector);
}

} // verus!
