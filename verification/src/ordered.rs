//! Vectors kept in strictly increasing order: finite sets of numbers.

use vstd::prelude::*;

verus! {

pub open spec fn strictly_increasing(values: Seq<u64>) -> bool {
    forall|i: int, j: int| 0 <= i < j < values.len() ==> #[trigger] values[i] < #[trigger] values[j]
}

/// Adds `value` unless it is there already.
pub fn insert(values: &mut Vec<u64>, value: u64)
    requires
        strictly_increasing(old(values)@),
    ensures
        strictly_increasing(final(values)@),
        forall|other: u64| #[trigger]
            final(values)@.contains(other) <==> old(values)@.contains(other) || other == value,
{
    let ghost before = values@;
    let mut at: usize = 0;
    while at < values.len() && values[at] < value
        invariant
            at <= values@.len(),
            values@ == before,
            strictly_increasing(before),
            forall|i: int| 0 <= i < at ==> before[i] < value,
        decreases values@.len() - at,
    {
        at = at + 1;
    }
    if at < values.len() && values[at] == value {
        assert(before[at as int] == value);
        return;
    }
    values.insert(at, value);
    let ghost after = values@;
    assert(after == before.insert(at as int, value));
    assert forall|other: u64| #[trigger] after.contains(other) <==> before.contains(other) || other
        == value by {
        if before.contains(other) {
            let i = choose|i: int| 0 <= i < before.len() && before[i] == other;
            assert(after[if i < at { i } else { i + 1 }] == other);
        }
        if other == value {
            assert(after[at as int] == value);
        }
        if after.contains(other) {
            let i = choose|i: int| 0 <= i < after.len() && after[i] == other;
            if i < at {
                assert(before[i] == other);
            } else if i > at {
                assert(before[i - 1] == other);
            }
        }
    }
}

/// Two strictly increasing sequences with the same members are equal.
pub proof fn lemma_same_members(a: Seq<u64>, b: Seq<u64>)
    requires
        strictly_increasing(a),
        strictly_increasing(b),
        forall|value: u64| a.contains(value) <==> b.contains(value),
    ensures
        a == b,
    decreases a.len(),
{
    if a.len() == 0 {
        if b.len() > 0 {
            assert(b.contains(b[0]));
            assert(a.contains(b[0]));
        }
        assert(a =~= b);
    } else {
        assert(a.contains(a.last()));
        assert(b.contains(a.last()));
        let i = choose|i: int| 0 <= i < b.len() && b[i] == a.last();
        assert(b.contains(b.last()));
        assert(a.contains(b.last()));
        let j = choose|j: int| 0 <= j < a.len() && a[j] == b.last();
        assert(a.last() == b.last());
        let a_rest = a.drop_last();
        let b_rest = b.drop_last();
        assert forall|value: u64| a_rest.contains(value) <==> b_rest.contains(value) by {
            if a_rest.contains(value) {
                let k = choose|k: int| 0 <= k < a_rest.len() && a_rest[k] == value;
                assert(a[k] == value);
                assert(b.contains(value));
                let m = choose|m: int| 0 <= m < b.len() && b[m] == value;
                assert(a[k] < a[a.len() - 1]);
                assert(b_rest[m] == value);
            }
            if b_rest.contains(value) {
                let k = choose|k: int| 0 <= k < b_rest.len() && b_rest[k] == value;
                assert(b[k] == value);
                assert(a.contains(value));
                let m = choose|m: int| 0 <= m < a.len() && a[m] == value;
                assert(b[k] < b[b.len() - 1]);
                assert(a_rest[m] == value);
            }
        }
        lemma_same_members(a_rest, b_rest);
        assert(a =~= a_rest.push(a.last()));
        assert(b =~= b_rest.push(b.last()));
    }
}

} // verus!
