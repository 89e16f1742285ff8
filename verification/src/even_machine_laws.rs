//! What holds of affinity expressions on machines whose processors are all alike, and of the masks
//! that they come to.

use vstd::prelude::*;

use crate::affinity;
use crate::affinity::{AffinityExpression, AffinityPolicy, AffinityTerm, EntryFilter};
use crate::affinity_laws;
use crate::mask;
use crate::service::ServiceError;
use crate::topology::{CpuSetEntry, CpuTopology};

verus! {

/// The logical processor `cpu` is in what was found.
pub open spec fn is_found(found: Result<Option<usize>, String>, cpu: int) -> bool {
    found matches Ok(Some(mask)) && mask::has_cpu(mask, cpu)
}

/// How many of the processors are free.
pub open spec fn free_count(entries: Seq<CpuSetEntry>) -> nat {
    entries.filter(|entry: CpuSetEntry| affinity_laws::is_free(entry)).len()
}

proof fn lemma_found(
    expression: &AffinityExpression,
    entries: &[CpuSetEntry],
    found: Result<Option<usize>, String>,
    cpu: int,
)
    requires
        call_ensures(AffinityExpression::mask_from_entries, (expression, entries), found),
        found is Ok,
        0 <= cpu < usize::BITS,
    ensures
        affinity::usable(entries@).len() > 0,
        is_found(found, cpu) <==> affinity::requested_indexes(
            expression.terms@,
            affinity::usable(entries@),
        ).contains(cpu as usize),
        affinity::usable(entries@).len() == free_count(entries@),
        affinity_laws::are_alike(entries@) <==> affinity::homogeneous(
            affinity::usable(entries@),
        ),
{
    let terms = expression.terms@;
    let all = affinity::usable(entries@);
    let wanted = affinity::requested_indexes(terms, all);
    assert(affinity::resolves_to(terms, entries@, found));
    affinity_laws::lemma_usable(entries@);
    assert(all.contains(all[0]));
    let i = choose|i: int|
        0 <= i < entries@.len() && affinity_laws::is_free(#[trigger] entries@[i]) && entries@[i]
            == *all[0];
    affinity_laws::lemma_machine(entries@, i);
    match found {
        Ok(Some(held)) => {
            assert(mask::has_cpu(held, cpu) <==> wanted.contains(cpu as usize));
        },
        _ => {},
    }
}

proof fn lemma_even_sum(terms: Seq<AffinityTerm>, candidates: Seq<&CpuSetEntry>, index: usize)
    requires
        affinity::homogeneous(candidates),
    ensures
        affinity::requested_indexes(terms, candidates).contains(index) <==> affinity::whole_indexes(
            terms,
            candidates,
        ).contains(index) || exists|t: int|
            0 <= t < terms.len() && (terms[t] is LogicalIndex || terms[t] is Cache)
                && affinity::term_indexes(#[trigger] terms[t], candidates).contains(index),
{
    let whole = affinity::whole_indexes(terms, candidates);
    let sum = affinity::summed_indexes(terms, candidates);
    let all = affinity::requested_indexes(terms, candidates);
    affinity::lemma_sum_members(terms, candidates, index);
    assert(all =~= whole + sum);
    if all.contains(index) {
        let k = choose|k: int| 0 <= k < all.len() && all[k] == index;
        if k < whole.len() {
            assert(whole[k] == index);
        } else {
            assert(sum[k - whole.len()] == index);
            let t = choose|t: int|
                0 <= t < terms.len() && affinity::term_indexes(
                    #[trigger] terms[t],
                    candidates,
                ).contains(index);
            assert(affinity::term_indexes(terms[t], candidates).contains(index));
        }
    }
    if whole.contains(index) {
        let k = choose|k: int| 0 <= k < whole.len() && whole[k] == index;
        assert(all[k] == index);
    }
    if sum.contains(index) {
        let k = choose|k: int| 0 <= k < sum.len() && sum[k] == index;
        assert(all[whole.len() + k] == index);
    }
}

proof fn lemma_own_words(terms: Seq<AffinityTerm>, t: int)
    requires
        0 <= t < terms.len(),
        terms == seq![AffinityTerm::Efficiency] || terms == seq![AffinityTerm::LowPowerEfficiency]
            || terms.len() == 2 && terms.contains(AffinityTerm::Efficiency) && terms.contains(
            AffinityTerm::LowPowerEfficiency,
        ),
    ensures
        terms[t] is Efficiency || terms[t] is LowPowerEfficiency,
{
    if terms.len() == 2 {
        let e = choose|e: int| 0 <= e < terms.len() && terms[e] == AffinityTerm::Efficiency;
        let l = choose|l: int|
            0 <= l < terms.len() && terms[l] == AffinityTerm::LowPowerEfficiency;
        assert(e != l);
        assert(t == e || t == l);
    }
}

/// Where all free processors are alike, `E`, alone or with `LPE`, allows those of them that have
/// an odd number.
pub proof fn law_efficient_processors_have_odd_numbers(
    expression: &AffinityExpression,
    entries: &[CpuSetEntry],
    found: Result<Option<usize>, String>,
    cpu: int,
)
    requires
        affinity_laws::are_alike(entries@),
        call_ensures(AffinityExpression::mask_from_entries, (expression, entries), found),
        found is Ok,
        expression.terms@ == seq![AffinityTerm::Efficiency] || expression.terms@.len() == 2
            && expression.terms@.contains(AffinityTerm::Efficiency) && expression.terms@.contains(
            AffinityTerm::LowPowerEfficiency,
        ),
        0 <= cpu < usize::BITS,
    ensures
        is_found(found, cpu) <==> affinity_laws::has_free(entries@, cpu) && cpu % 2 == 1,
{
    let terms = expression.terms@;
    let all = affinity::usable(entries@);
    let index = cpu as usize;
    lemma_found(expression, entries, found, cpu);
    lemma_even_sum(terms, all, index);
    assert forall|t: int| 0 <= t < terms.len() implies (#[trigger] terms[t]) is Efficiency
        || terms[t] is LowPowerEfficiency by {
        lemma_own_words(terms, t);
    }
    let chosen = affinity::picked(all, EntryFilter::OddIndex);
    assert(affinity::whole_indexes(terms, all) == affinity::indexes(chosen));
    affinity::lemma_picked(all, EntryFilter::OddIndex);
    affinity_laws::lemma_usable(entries@);
    if affinity::indexes(chosen).contains(index) {
        let k = choose|k: int| 0 <= k < chosen.len() && affinity::indexes(chosen)[k] == index;
        assert(chosen.contains(chosen[k]));
        assert(all.contains(chosen[k]));
        let i = choose|i: int|
            0 <= i < entries@.len() && affinity_laws::is_free(#[trigger] entries@[i])
                && entries@[i] == *chosen[k];
        assert(affinity_laws::is_free_at(entries@, i, cpu));
    }
    if affinity_laws::has_free(entries@, cpu) && cpu % 2 == 1 {
        let i = choose|i: int| #[trigger] affinity_laws::is_free_at(entries@, i, cpu);
        let entry = &entries@[i];
        assert(all.contains(entry));
        assert(affinity::selects(EntryFilter::OddIndex, entry));
        assert(chosen.contains(entry));
        affinity::lemma_index_of_member(chosen, entry);
    }
}

/// Where all free processors are alike, an expression with other terms than `E` and `LPE` allows
/// no more than the numbers that it names and the processors behind the preferred cache: neither
/// `P`, nor `E`, nor `LPE` adds one.
pub proof fn law_tiers_add_nothing_to_an_even_machine(
    expression: &AffinityExpression,
    entries: &[CpuSetEntry],
    found: Result<Option<usize>, String>,
    cpu: int,
)
    requires
        affinity_laws::are_alike(entries@),
        call_ensures(AffinityExpression::mask_from_entries, (expression, entries), found),
        found is Ok,
        exists|t: int|
            0 <= t < expression.terms@.len() && !((#[trigger] expression.terms@[t]) is Efficiency)
                && !(expression.terms@[t] is LowPowerEfficiency),
        0 <= cpu < usize::BITS,
    ensures
        is_found(found, cpu) <==> exists|t: int, i: int|
            0 <= t < expression.terms@.len() && #[trigger] affinity_laws::is_free_at(
                entries@,
                i,
                cpu,
            ) && (match #[trigger] expression.terms@[t] {
                AffinityTerm::LogicalIndex(index) => index == cpu,
                AffinityTerm::Cache => entries@[i].cache,
                _ => false,
            }),
{
    let terms = expression.terms@;
    let all = affinity::usable(entries@);
    let index = cpu as usize;
    lemma_found(expression, entries, found, cpu);
    lemma_even_sum(terms, all, index);
    let other = choose|t: int|
        0 <= t < terms.len() && !((#[trigger] terms[t]) is Efficiency)
            && !(terms[t] is LowPowerEfficiency);
    assert(affinity::whole_indexes(terms, all).len() == 0) by {
        if terms == seq![AffinityTerm::Efficiency] || affinity::is_efficiency_plus_low_power(terms)
            || terms == seq![AffinityTerm::LowPowerEfficiency] {
            lemma_own_words(terms, other);
        }
    }
    affinity::lemma_picked(all, EntryFilter::PreferredCache);
    affinity_laws::lemma_usable(entries@);
    let cached = affinity::cache_tier(all);
    if is_found(found, cpu) {
        let t = choose|t: int|
            0 <= t < terms.len() && (terms[t] is LogicalIndex || terms[t] is Cache)
                && affinity::term_indexes(#[trigger] terms[t], all).contains(index);
        let own = affinity::term_indexes(terms[t], all);
        let k = choose|k: int| 0 <= k < own.len() && own[k] == index;
        let entry = if terms[t] is Cache {
            cached[k]
        } else {
            all[choose|m: int| 0 <= m < all.len() && (#[trigger] all[m]).logical_index == index]
        };
        if terms[t] is Cache {
            assert(cached.contains(cached[k]));
        }
        assert(all.contains(entry));
        let i = choose|i: int|
            0 <= i < entries@.len() && affinity_laws::is_free(#[trigger] entries@[i])
                && entries@[i] == *entry;
        assert(affinity_laws::is_free_at(entries@, i, cpu));
        assert(terms[t] is Cache ==> entries@[i].cache);
    }
    if exists|t: int, i: int|
        0 <= t < terms.len() && #[trigger] affinity_laws::is_free_at(entries@, i, cpu) && (
        match #[trigger] terms[t] {
            AffinityTerm::LogicalIndex(named) => named == cpu,
            AffinityTerm::Cache => entries@[i].cache,
            _ => false,
        }) {
        let (t, i) = choose|t: int, i: int|
            0 <= t < terms.len() && #[trigger] affinity_laws::is_free_at(entries@, i, cpu) && (
            match #[trigger] terms[t] {
                AffinityTerm::LogicalIndex(named) => named == cpu,
                AffinityTerm::Cache => entries@[i].cache,
                _ => false,
            });
        let entry = &entries@[i];
        assert(all.contains(entry));
        let own = affinity::term_indexes(terms[t], all);
        if terms[t] is Cache {
            assert(affinity::selects(EntryFilter::PreferredCache, entry));
            assert(cached.contains(entry));
            affinity::lemma_index_of_member(cached, entry);
        } else {
            let m = choose|m: int| 0 <= m < all.len() && all[m] == entry;
            assert(affinity::has_index(all, index));
            assert(own[0] == index);
        }
        assert(own.contains(index));
    }
}

/// No two free processors have the same number.
pub open spec fn are_numbered_apart(entries: Seq<CpuSetEntry>) -> bool {
    forall|i: int, j: int|
        0 <= i < j < entries.len() && affinity_laws::is_free(#[trigger] entries[i])
            && affinity_laws::is_free(#[trigger] entries[j]) ==> entries[i].logical_index
            != entries[j].logical_index
}

/// `cpu` is the highest number of the free processors.
pub open spec fn is_highest_free(entries: Seq<CpuSetEntry>, cpu: int) -> bool {
    &&& affinity_laws::has_free(entries, cpu)
    &&& forall|i: int|
        0 <= i < entries.len() && affinity_laws::is_free(#[trigger] entries[i])
            ==> entries[i].logical_index <= cpu
}

proof fn lemma_sorted_members(candidates: Seq<&CpuSetEntry>)
    ensures
        affinity::in_index_order(affinity::by_index(candidates)),
        affinity::by_index(candidates).len() == candidates.len(),
        forall|entry: &CpuSetEntry| #[trigger]
            affinity::by_index(candidates).contains(entry) <==> candidates.contains(entry),
{
    broadcast use vstd::seq_lib::group_to_multiset_ensures;

    affinity::lemma_by_index(candidates);
    let sorted = affinity::by_index(candidates);
    assert forall|entry: &CpuSetEntry| #[trigger]
        sorted.contains(entry) <==> candidates.contains(entry) by {
        assert(sorted.contains(entry) <==> sorted.to_multiset().count(entry) > 0);
        assert(candidates.contains(entry) <==> candidates.to_multiset().count(entry) > 0);
    }
}

proof fn lemma_low_power(
    expression: &AffinityExpression,
    entries: &[CpuSetEntry],
    found: Result<Option<usize>, String>,
    cpu: int,
)
    requires
        affinity_laws::are_alike(entries@),
        call_ensures(AffinityExpression::mask_from_entries, (expression, entries), found),
        found is Ok,
        expression.terms@ == seq![AffinityTerm::LowPowerEfficiency],
        0 <= cpu < usize::BITS,
    ensures
        is_found(found, cpu) <==> affinity::indexes(
            affinity::uniform_low_power(affinity::usable(entries@)),
        ).contains(cpu as usize),
{
    let terms = expression.terms@;
    let all = affinity::usable(entries@);
    lemma_found(expression, entries, found, cpu);
    lemma_even_sum(terms, all, cpu as usize);
    assert(terms[0] == AffinityTerm::LowPowerEfficiency);
    assert(!(terms =~= seq![AffinityTerm::Efficiency])) by {
        assert(seq![AffinityTerm::Efficiency][0] == AffinityTerm::Efficiency);
    }
}

/// Where all free processors are alike, `LPE` alone allows the ones with the highest numbers:
/// every free processor that it leaves out comes before every one that it allows, where there are
/// up to eight of them.
pub proof fn law_low_power_processors_come_last(
    expression: &AffinityExpression,
    entries: &[CpuSetEntry],
    found: Result<Option<usize>, String>,
    allowed: int,
    left_out: int,
)
    requires
        affinity_laws::are_alike(entries@),
        call_ensures(AffinityExpression::mask_from_entries, (expression, entries), found),
        found is Ok,
        expression.terms@ == seq![AffinityTerm::LowPowerEfficiency],
        free_count(entries@) <= 8,
        is_found(found, allowed),
        affinity_laws::has_free(entries@, left_out),
        0 <= left_out < usize::BITS,
        !is_found(found, left_out),
    ensures
        free_count(entries@) > 2,
        left_out < allowed,
{
    let all = affinity::usable(entries@);
    let sorted = affinity::by_index(all);
    let chosen = affinity::uniform_low_power(all);
    lemma_low_power(expression, entries, found, allowed);
    lemma_low_power(expression, entries, found, left_out);
    lemma_found(expression, entries, found, allowed);
    lemma_sorted_members(all);
    affinity_laws::lemma_usable(entries@);
    let i = choose|i: int| #[trigger] affinity_laws::is_free_at(entries@, i, left_out);
    assert(all.contains(&entries@[i]));
    assert(sorted.contains(&entries@[i]));
    let at = choose|at: int| 0 <= at < sorted.len() && sorted[at] == &entries@[i];
    let numbers = affinity::indexes(chosen);
    let k = choose|k: int| 0 <= k < numbers.len() && numbers[k] == allowed as usize;
    let shift = sorted.len() - chosen.len();
    assert(chosen[k] == sorted[shift + k]);
    if at >= shift {
        assert(chosen[at - shift] == sorted[at]);
        assert(numbers[at - shift] == left_out as usize);
    }
    assert(sorted[at].logical_index <= sorted[shift + k].logical_index);
    if sorted[at].logical_index == sorted[shift + k].logical_index {
        assert(left_out == allowed);
    }
}

/// Where all free processors are alike and numbered apart, `LPE` alone allows two of three to
/// seven of them, and all of one or two.
pub proof fn law_two_processors_save_power(
    expression: &AffinityExpression,
    entries: &[CpuSetEntry],
    found: Result<Option<usize>, String>,
)
    requires
        affinity_laws::are_alike(entries@),
        are_numbered_apart(entries@),
        call_ensures(AffinityExpression::mask_from_entries, (expression, entries), found),
        found is Ok,
        expression.terms@ == seq![AffinityTerm::LowPowerEfficiency],
        2 <= free_count(entries@) <= 7,
    ensures
        exists|a: int, b: int|
            a < b && #[trigger] is_found(found, a) && #[trigger] is_found(found, b) && forall|
                cpu: int,
            | #[trigger]
                is_found(found, cpu) ==> cpu == a || cpu == b,
{
    let all = affinity::usable(entries@);
    let sorted = affinity::by_index(all);
    let chosen = affinity::uniform_low_power(all);
    let numbers = affinity::indexes(chosen);
    lemma_low_power(expression, entries, found, 0);
    lemma_found(expression, entries, found, 0);
    lemma_sorted_members(all);
    lemma_sorted_apart(entries@);
    let count = sorted.len() as int;
    let a = sorted[count - 2].logical_index as int;
    let b = sorted[count - 1].logical_index as int;
    assert(sorted[count - 2].logical_index < sorted[count - 1].logical_index);
    assert(chosen =~= sorted.subrange(count - 2, count));
    assert(numbers[0] == a && numbers[1] == b);
    lemma_numbers_fit(expression, entries, found);
    assert(numbers.contains(numbers[0]) && numbers.contains(numbers[1]));
    lemma_low_power(expression, entries, found, a);
    lemma_low_power(expression, entries, found, b);
    assert forall|cpu: int| #[trigger] is_found(found, cpu) implies cpu == a || cpu == b by {
        lemma_low_power(expression, entries, found, cpu);
        let k = choose|k: int| 0 <= k < numbers.len() && numbers[k] == cpu as usize;
        assert(k == 0 || k == 1);
    }
    assert(is_found(found, a) && is_found(found, b));
}

/// Where all free processors are alike and numbered apart, `LPE` alone allows four of eight.
pub proof fn law_four_of_eight_save_power(
    expression: &AffinityExpression,
    entries: &[CpuSetEntry],
    found: Result<Option<usize>, String>,
)
    requires
        affinity_laws::are_alike(entries@),
        are_numbered_apart(entries@),
        call_ensures(AffinityExpression::mask_from_entries, (expression, entries), found),
        found is Ok,
        expression.terms@ == seq![AffinityTerm::LowPowerEfficiency],
        free_count(entries@) == 8,
    ensures
        exists|a: int, b: int, c: int, d: int|
            a < b < c < d && #[trigger] is_found(found, a) && #[trigger] is_found(found, b)
                && #[trigger] is_found(found, c) && #[trigger] is_found(found, d) && forall|
                cpu: int,
            | #[trigger]
                is_found(found, cpu) ==> cpu == a || cpu == b || cpu == c || cpu == d,
{
    let all = affinity::usable(entries@);
    let sorted = affinity::by_index(all);
    let chosen = affinity::uniform_low_power(all);
    let numbers = affinity::indexes(chosen);
    lemma_low_power(expression, entries, found, 0);
    lemma_found(expression, entries, found, 0);
    lemma_sorted_members(all);
    lemma_sorted_apart(entries@);
    let a = sorted[4].logical_index as int;
    let b = sorted[5].logical_index as int;
    let c = sorted[6].logical_index as int;
    let d = sorted[7].logical_index as int;
    assert(sorted[4].logical_index < sorted[5].logical_index);
    assert(sorted[5].logical_index < sorted[6].logical_index);
    assert(sorted[6].logical_index < sorted[7].logical_index);
    assert(chosen =~= sorted.subrange(4, 8));
    assert(numbers[0] == a && numbers[1] == b && numbers[2] == c && numbers[3] == d);
    lemma_numbers_fit(expression, entries, found);
    assert(numbers.contains(numbers[0]) && numbers.contains(numbers[1]) && numbers.contains(
        numbers[2],
    ) && numbers.contains(numbers[3]));
    lemma_low_power(expression, entries, found, a);
    lemma_low_power(expression, entries, found, b);
    lemma_low_power(expression, entries, found, c);
    lemma_low_power(expression, entries, found, d);
    assert forall|cpu: int| #[trigger] is_found(found, cpu) implies cpu == a || cpu == b || cpu
        == c || cpu == d by {
        lemma_low_power(expression, entries, found, cpu);
        let k = choose|k: int| 0 <= k < numbers.len() && numbers[k] == cpu as usize;
        assert(k == 0 || k == 1 || k == 2 || k == 3);
    }
    assert(is_found(found, a) && is_found(found, b) && is_found(found, c) && is_found(found, d));
}

proof fn lemma_numbers_fit(
    expression: &AffinityExpression,
    entries: &[CpuSetEntry],
    found: Result<Option<usize>, String>,
)
    requires
        affinity_laws::are_alike(entries@),
        call_ensures(AffinityExpression::mask_from_entries, (expression, entries), found),
        found is Ok,
        expression.terms@ == seq![AffinityTerm::LowPowerEfficiency],
    ensures
        mask::all_fit(affinity::indexes(affinity::uniform_low_power(affinity::usable(entries@)))),
{
    let terms = expression.terms@;
    let all = affinity::usable(entries@);
    let wanted = affinity::requested_indexes(terms, all);
    lemma_found(expression, entries, found, 0);
    assert(affinity::resolves_to(terms, entries@, found));
    assert(mask::all_fit(wanted));
    assert(terms[0] == AffinityTerm::LowPowerEfficiency);
    assert(!(terms =~= seq![AffinityTerm::Efficiency])) by {
        assert(seq![AffinityTerm::Efficiency][0] == AffinityTerm::Efficiency);
    }
    let whole = affinity::whole_indexes(terms, all);
    assert(whole == affinity::indexes(affinity::uniform_low_power(all)));
    assert forall|i: int| 0 <= i < whole.len() implies (#[trigger] whole[i]) < usize::BITS by {
        assert(wanted[i] == whole[i]);
    }
}

proof fn lemma_sorted_apart(entries: Seq<CpuSetEntry>)
    requires
        are_numbered_apart(entries),
    ensures
        forall|i: int, j: int|
            0 <= i < j < affinity::usable(entries).len() ==> (#[trigger] affinity::by_index(
                affinity::usable(entries),
            )[i]).logical_index < (#[trigger] affinity::by_index(
                affinity::usable(entries),
            )[j]).logical_index,
{
    broadcast use vstd::seq_lib::group_to_multiset_ensures;

    let all = affinity::usable(entries);
    let sorted = affinity::by_index(all);
    affinity::lemma_by_index(all);
    lemma_usable_apart(entries);
    assert forall|i: int, j: int| 0 <= i < j < sorted.len() implies (
    #[trigger] sorted[i]).logical_index < (#[trigger] sorted[j]).logical_index by {
        if sorted[i].logical_index == sorted[j].logical_index {
            let a = sorted[i];
            let b = sorted[j];
            assert(sorted.contains(a) && sorted.contains(b));
            assert(sorted.to_multiset().count(a) > 0 && sorted.to_multiset().count(b) > 0);
            assert(all.contains(a) && all.contains(b));
            let p = choose|p: int| 0 <= p < all.len() && all[p] == a;
            let q = choose|q: int| 0 <= q < all.len() && all[q] == b;
            assert(p == q);
            assert(a == b);
            lemma_twice(sorted, i, j);
            lemma_once(all, p);
        }
    }
}

proof fn lemma_usable_apart(entries: Seq<CpuSetEntry>)
    requires
        are_numbered_apart(entries),
    ensures
        forall|i: int, j: int|
            0 <= i < affinity::usable(entries).len() && 0 <= j < affinity::usable(entries).len()
                && i != j ==> (#[trigger] affinity::usable(entries)[i]).logical_index != (
            #[trigger] affinity::usable(entries)[j]).logical_index,
    decreases entries.len(),
{
    reveal(Seq::filter);
    if entries.len() > 0 {
        let before = entries.drop_last();
        let last = entries.last();
        lemma_usable_apart(before);
        affinity_laws::lemma_usable(before);
        let fewer = affinity::usable(before);
        let all = affinity::usable(entries);
        assert(all =~= if affinity_laws::is_free(last) {
            fewer.push(&last)
        } else {
            fewer
        });
        if affinity_laws::is_free(last) {
            assert forall|i: int| 0 <= i < fewer.len() implies (#[trigger] fewer[i]).logical_index
                != last.logical_index by {
                assert(fewer.contains(fewer[i]));
                let k = choose|k: int|
                    0 <= k < before.len() && affinity_laws::is_free(#[trigger] before[k])
                        && before[k] == *fewer[i];
                assert(entries[k] == before[k]);
                assert(entries[entries.len() - 1] == last);
            }
            assert forall|i: int, j: int|
                0 <= i < all.len() && 0 <= j < all.len() && i != j implies (
            #[trigger] all[i]).logical_index != (#[trigger] all[j]).logical_index by {
                if i < fewer.len() {
                    assert(all[i] == fewer[i]);
                }
                if j < fewer.len() {
                    assert(all[j] == fewer[j]);
                }
            }
        }
    }
}

proof fn lemma_twice(entries: Seq<&CpuSetEntry>, i: int, j: int)
    requires
        0 <= i < j < entries.len(),
        entries[i] == entries[j],
    ensures
        entries.to_multiset().count(entries[i]) >= 2,
{
    broadcast use vstd::seq_lib::group_to_multiset_ensures;

    let entry = entries[i];
    let shorter = entries.remove(j);
    assert(shorter[i] == entry);
    assert(shorter.contains(entry));
    assert(shorter.to_multiset().count(entry) > 0);
    assert(entries =~= shorter.insert(j, entry));
    assert(shorter.to_multiset() == entries.to_multiset().remove(entry));
}

proof fn lemma_once(entries: Seq<&CpuSetEntry>, p: int)
    requires
        0 <= p < entries.len(),
        forall|i: int, j: int|
            0 <= i < entries.len() && 0 <= j < entries.len() && i != j ==> (
            #[trigger] entries[i]).logical_index != (#[trigger] entries[j]).logical_index,
    ensures
        entries.to_multiset().count(entries[p]) == 1,
{
    broadcast use vstd::seq_lib::group_to_multiset_ensures;

    let entry = entries[p];
    let shorter = entries.remove(p);
    assert(!shorter.contains(entry)) by {
        if shorter.contains(entry) {
            let k = choose|k: int| 0 <= k < shorter.len() && shorter[k] == entry;
            let m = if k < p {
                k
            } else {
                k + 1
            };
            assert(entries[m] == shorter[k]);
            assert(entries[m].logical_index == entries[p].logical_index);
        }
    }
    assert(shorter.to_multiset().count(entry) == 0);
    assert(entries.contains(entry));
    assert(entries.to_multiset().count(entry) > 0);
}

proof fn lemma_has_first(entries: Seq<&CpuSetEntry>, index: usize)
    ensures
        affinity::indexes(affinity::first_with_index(entries, index)).contains(index)
            <==> affinity::has_index(entries, index),
        forall|other: usize| #[trigger]
            affinity::indexes(affinity::first_with_index(entries, index)).contains(other) ==> other
                == index,
    decreases entries.len(),
{
    if entries.len() > 0 {
        let rest = entries.subrange(1, entries.len() as int);
        if entries[0].logical_index == index {
            let own = affinity::indexes(affinity::first_with_index(entries, index));
            assert(own =~= seq![index]);
            assert(own[0] == index);
        } else {
            lemma_has_first(rest, index);
            if affinity::has_index(entries, index) {
                let i = choose|i: int|
                    0 <= i < entries.len() && (#[trigger] entries[i]).logical_index == index;
                assert(rest[i - 1] == entries[i]);
            }
            if affinity::has_index(rest, index) {
                let i = choose|i: int|
                    0 <= i < rest.len() && (#[trigger] rest[i]).logical_index == index;
                assert(entries[i + 1] == rest[i]);
            }
        }
    }
}

proof fn lemma_down(entries: Seq<&CpuSetEntry>, from: usize, steps: nat, index: usize)
    ensures
        affinity::indexes(affinity::every_second_down(entries, from, steps)).contains(index)
            <==> affinity::has_index(entries, index) && index <= from && (from - index) % 2 == 0 && (
        from - index) / 2 < steps,
    decreases steps,
{
    let down = affinity::every_second_down(entries, from, steps);
    if steps > 0 {
        let first = affinity::first_with_index(entries, from);
        lemma_has_first(entries, from);
        if from >= 2 {
            let next = (from - 2) as usize;
            let rest = affinity::every_second_down(entries, next, (steps - 1) as nat);
            lemma_down(entries, next, (steps - 1) as nat, index);
            assert(affinity::indexes(down) =~= affinity::indexes(first) + affinity::indexes(rest));
            let a = affinity::indexes(first);
            let b = affinity::indexes(rest);
            if affinity::indexes(down).contains(index) {
                let k = choose|k: int| 0 <= k < (a + b).len() && (a + b)[k] == index;
                if k < a.len() {
                    assert(a[k] == index);
                    assert(a.contains(index));
                } else {
                    assert(b[k - a.len()] == index);
                }
            }
            if a.contains(index) {
                let k = choose|k: int| 0 <= k < a.len() && a[k] == index;
                assert((a + b)[k] == index);
            }
            if b.contains(index) {
                let k = choose|k: int| 0 <= k < b.len() && b[k] == index;
                assert((a + b)[a.len() + k] == index);
            }
        }
    }
}

/// Where more than eight free processors are all alike, `LPE` alone allows the one with the highest
/// number and those two, four and six below it.
pub proof fn law_every_second_of_many_saves_power(
    expression: &AffinityExpression,
    entries: &[CpuSetEntry],
    found: Result<Option<usize>, String>,
    highest: int,
    cpu: int,
)
    requires
        affinity_laws::are_alike(entries@),
        call_ensures(AffinityExpression::mask_from_entries, (expression, entries), found),
        found is Ok,
        expression.terms@ == seq![AffinityTerm::LowPowerEfficiency],
        free_count(entries@) > 8,
        is_highest_free(entries@, highest),
        0 <= cpu < usize::BITS,
    ensures
        is_found(found, cpu) <==> affinity_laws::has_free(entries@, cpu) && (cpu == highest || cpu
            == highest - 2 || cpu == highest - 4 || cpu == highest - 6),
{
    let all = affinity::usable(entries@);
    let sorted = affinity::by_index(all);
    let index = cpu as usize;
    lemma_low_power(expression, entries, found, cpu);
    lemma_found(expression, entries, found, cpu);
    lemma_sorted_members(all);
    affinity_laws::lemma_usable(entries@);
    let last = sorted.last().logical_index;
    let i = choose|i: int| #[trigger] affinity_laws::is_free_at(entries@, i, highest);
    assert(all.contains(&entries@[i]));
    assert(sorted.contains(&entries@[i]));
    let at = choose|at: int| 0 <= at < sorted.len() && sorted[at] == &entries@[i];
    assert(sorted[at].logical_index <= sorted[sorted.len() - 1].logical_index);
    assert(sorted.contains(sorted[sorted.len() - 1]));
    assert(all.contains(sorted.last()));
    assert(last == highest);
    lemma_down(sorted, last, 4, index);
    assert(affinity::has_index(sorted, index) <==> affinity_laws::has_free(entries@, cpu)) by {
        if affinity::has_index(sorted, index) {
            let k = choose|k: int|
                0 <= k < sorted.len() && (#[trigger] sorted[k]).logical_index == index;
            assert(sorted.contains(sorted[k]));
            assert(all.contains(sorted[k]));
            let j = choose|j: int|
                0 <= j < entries@.len() && affinity_laws::is_free(#[trigger] entries@[j])
                    && entries@[j] == *sorted[k];
            assert(affinity_laws::is_free_at(entries@, j, cpu));
        }
        if affinity_laws::has_free(entries@, cpu) {
            let j = choose|j: int| #[trigger] affinity_laws::is_free_at(entries@, j, cpu);
            assert(all.contains(&entries@[j]));
            assert(sorted.contains(&entries@[j]));
            let k = choose|k: int| 0 <= k < sorted.len() && sorted[k] == &entries@[j];
            assert(sorted[k].logical_index == index);
        }
    }
}

/// A fixed mask is taken as it is, whatever the machine; an expression comes to what it stands for
/// on the machine's processors, and where it stands for nothing the error names its source.
pub proof fn law_policy_comes_to_its_mask(
    policy: &AffinityPolicy,
    topology: &CpuTopology,
    found: Result<Option<usize>, ServiceError>,
    direct: Result<Option<usize>, String>,
)
    requires
        call_ensures(AffinityPolicy::mask, (policy, topology), found),
        policy matches AffinityPolicy::Expression(expression) ==> exists|entries: &[CpuSetEntry]|
            entries@ == topology.entries@ && #[trigger] call_ensures(
                AffinityExpression::mask_from_entries,
                (expression, entries),
                direct,
            ),
    ensures
        policy matches AffinityPolicy::Mask(mask) ==> found == Ok::<Option<usize>, ServiceError>(
            Some(*mask),
        ),
        policy matches AffinityPolicy::Expression(expression) ==> match direct {
            Ok(mask) => found == Ok::<Option<usize>, ServiceError>(mask),
            Err(_) => found matches Err(ServiceError::Affinity { expression: source, .. })
                && source@ == expression.source@,
        },
{
    if let AffinityPolicy::Expression(expression) = policy {
        let entries = choose|entries: &[CpuSetEntry]|
            entries@ == topology.entries@ && #[trigger] call_ensures(
                AffinityExpression::mask_from_entries,
                (expression, entries),
                direct,
            );
        assert(affinity::resolves_to(expression.terms@, topology.entries@, direct));
        match (found, direct) {
            (Ok(a), Ok(b)) => {
                assert(affinity::resolves_to(expression.terms@, topology.entries@, Ok(a)));
                if let (Some(x), Some(y)) = (a, b) {
                    mask::lemma_extensional(x, y);
                }
            },
            _ => {},
        }
    }
}

/// Adding a processor to a mask adds that processor and no other, and is refused where a mask has
/// no room for its number.
pub proof fn law_one_processor_is_added(
    mask: &mut usize,
    index: usize,
    added: Result<(), String>,
    cpu: int,
)
    requires
        call_ensures(affinity::add_logical_index_to_mask, (mask, index), added),
    ensures
        added is Ok <==> index < usize::BITS,
        added is Ok ==> (mask::has_cpu(*final(mask), cpu) <==> cpu == index || mask::has_cpu(
            *old(mask),
            cpu,
        )),
        added is Err ==> *final(mask) == *old(mask),
{
}

/// A number adds its processor to a mask only where the machine has a processor of that number.
pub proof fn law_unknown_number_adds_nothing(
    mask: &mut usize,
    candidates: &[&CpuSetEntry],
    index: usize,
    cpu: int,
)
    requires
        call_ensures(
            affinity::add_filtered_logical_index_to_mask,
            (mask, candidates, index),
            (),
        ),
        0 <= cpu < usize::BITS,
    ensures
        mask::has_cpu(*final(mask), cpu) <==> mask::has_cpu(*old(mask), cpu) || cpu == index
            && exists|i: int|
            0 <= i < candidates@.len() && (#[trigger] candidates@[i]).logical_index == index,
{
    let own = affinity::numbered_index(candidates@, index);
    if own.len() > 0 {
        assert(own[0] == index);
        assert(own.contains(index));
    }
    assert(mask::has_cpu(*final(mask), cpu) <==> mask::has_cpu(*old(mask), cpu) || own.contains(
        cpu as usize,
    ));
}

/// Adding processors to a mask adds each of them, and nothing else.
pub proof fn law_entries_are_added(
    mask: &mut usize,
    entries: &[&CpuSetEntry],
    added: Result<(), String>,
    cpu: int,
)
    requires
        call_ensures(affinity::add_entries_to_mask, (mask, entries), added),
        0 <= cpu < usize::BITS,
    ensures
        added is Ok <==> forall|i: int|
            0 <= i < entries@.len() ==> (#[trigger] entries@[i]).logical_index < usize::BITS,
        added is Ok ==> (mask::has_cpu(*final(mask), cpu) <==> mask::has_cpu(*old(mask), cpu)
            || exists|i: int|
            0 <= i < entries@.len() && (#[trigger] entries@[i]).logical_index == cpu),
{
    let numbers = affinity::indexes(entries@);
    assert forall|i: int| 0 <= i < entries@.len() implies #[trigger] numbers[i]
        == entries@[i].logical_index by {}
    if added is Ok {
        if numbers.contains(cpu as usize) {
            let k = choose|k: int| 0 <= k < numbers.len() && numbers[k] == cpu as usize;
            assert(entries@[k].logical_index == cpu);
        }
        if exists|i: int| 0 <= i < entries@.len() && (#[trigger] entries@[i]).logical_index == cpu {
            let k = choose|k: int|
                0 <= k < entries@.len() && (#[trigger] entries@[k]).logical_index == cpu;
            assert(numbers[k] == cpu as usize);
        }
    }
    if forall|i: int| 0 <= i < entries@.len() ==> (#[trigger] entries@[i]).logical_index
        < usize::BITS {
        assert(mask::all_fit(numbers));
    }
    if mask::all_fit(numbers) {
        assert forall|i: int| 0 <= i < entries@.len() implies (
        #[trigger] entries@[i]).logical_index < usize::BITS by {
            assert(numbers[i] < usize::BITS);
        }
    }
}

/// The processor `cpu` is in a mask where the mask, written in binary, has a one at the place that
/// is worth two to the power of `cpu`.
pub proof fn law_places_of_a_mask_are_processors(mask: usize, cpu: usize, present: bool)
    requires
        call_ensures(mask::contains_cpu, (mask, cpu), present),
        cpu < usize::BITS,
    ensures
        present <==> (mask as nat / vstd::arithmetic::power2::pow2(cpu as nat)) % 2 == 1,
{
    vstd::bits::lemma_usize_shr_is_div(mask, cpu);
    let shifted = mask >> cpu;
    assert(shifted & 1 == shifted % 2) by (bit_vector);
}

/// What two masks have in common is in both, and what both have is in it.
pub proof fn law_common_processors_are_in_both(a: usize, b: usize, common: usize, cpu: int)
    requires
        call_ensures(mask::common_cpus, (a, b), common),
    ensures
        mask::has_cpu(common, cpu) <==> mask::has_cpu(a, cpu) && mask::has_cpu(b, cpu),
{
}

/// Of processors that are all alike, those with an odd number are the efficient ones, in their order.
pub proof fn law_efficient_entries_have_odd_numbers<'a>(
    candidates: &[&'a CpuSetEntry],
    chosen: Vec<&'a CpuSetEntry>,
    entry: &CpuSetEntry,
)
    requires
        call_ensures(affinity::homogeneous_efficiency_entries, (candidates,), chosen),
    ensures
        chosen@.contains(entry) <==> candidates@.contains(entry) && entry.logical_index % 2 == 1,
{
    affinity::lemma_picked(candidates@, EntryFilter::OddIndex);
}

/// Of up to two processors that are all alike all save power, of up to seven two, and of eight four;
/// what saves power has the highest numbers.
pub proof fn law_saving_entries_have_the_highest_numbers<'a>(
    candidates: &[&'a CpuSetEntry],
    chosen: Vec<&'a CpuSetEntry>,
    saving: &CpuSetEntry,
    other: &CpuSetEntry,
)
    requires
        call_ensures(affinity::homogeneous_low_power_efficiency_entries, (candidates,), chosen),
        candidates@.len() <= 8,
    ensures
        candidates@.len() <= 2 ==> chosen@.len() == candidates@.len(),
        2 < candidates@.len() <= 7 ==> chosen@.len() == 2,
        candidates@.len() == 8 ==> chosen@.len() == 4,
        chosen@.contains(saving) ==> candidates@.contains(saving),
        chosen@.contains(saving) && candidates@.contains(other) && !chosen@.contains(other)
            ==> other.logical_index <= saving.logical_index,
{
    let sorted = affinity::by_index(candidates@);
    lemma_sorted_members(candidates@);
    let shift = sorted.len() - chosen@.len();
    assert(sorted.len() == candidates@.len());
    if chosen@.contains(saving) {
        let k = choose|k: int| 0 <= k < chosen@.len() && chosen@[k] == saving;
        assert(chosen@[k] == sorted[shift + k]);
        assert(sorted.contains(saving));
        if candidates@.contains(other) && !chosen@.contains(other) {
            assert(sorted.contains(other));
            let at = choose|at: int| 0 <= at < sorted.len() && sorted[at] == other;
            if at >= shift {
                assert(chosen@[at - shift] == sorted[at]);
            }
            assert(sorted[at].logical_index <= sorted[shift + k].logical_index);
        }
    }
}

/// An expression asks for both tiers of efficient processors where it names these two, in whatever
/// order, and nothing else.
pub proof fn law_both_efficient_tiers_are_named(terms: &[AffinityTerm], both: bool)
    requires
        call_ensures(affinity::is_homogeneous_efficiency_plus_lpe, (terms,), both),
    ensures
        both <==> terms@ == seq![AffinityTerm::Efficiency, AffinityTerm::LowPowerEfficiency]
            || terms@ == seq![AffinityTerm::LowPowerEfficiency, AffinityTerm::Efficiency],
{
    let e = AffinityTerm::Efficiency;
    let l = AffinityTerm::LowPowerEfficiency;
    if both {
        let i = choose|i: int| 0 <= i < terms@.len() && terms@[i] == e;
        let j = choose|j: int| 0 <= j < terms@.len() && terms@[j] == l;
        if i == 0 {
            assert(terms@ =~= seq![e, l]);
        } else {
            assert(terms@ =~= seq![l, e]);
        }
    }
    assert(seq![e, l][0] == e && seq![e, l][1] == l);
    assert(seq![l, e][0] == l && seq![l, e][1] == e);
}

} // verus!
