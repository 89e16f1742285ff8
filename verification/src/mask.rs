//! Processor masks: a `usize` read as the set of logical processor numbers whose bit is set.

use vstd::prelude::*;

verus! {

/// Logical processor `cpu` is a member of `mask`.
pub open spec fn has_cpu(mask: usize, cpu: int) -> bool {
    0 <= cpu < usize::BITS && (mask >> (cpu as usize)) & 1 == 1
}

/// The set of logical processor numbers that `mask` stands for.
pub open spec fn cpus(mask: usize) -> Set<int> {
    Set::new(|cpu: int| has_cpu(mask, cpu))
}

/// Every logical processor number in `indexes` can be a member of a mask.
pub open spec fn all_fit(indexes: Seq<usize>) -> bool {
    forall|i: int| 0 <= i < indexes.len() ==> (#[trigger] indexes[i]) < usize::BITS
}

/// `mask` is `before` with the processors of `indexes` added.
pub open spec fn is_union(mask: usize, before: usize, indexes: Seq<usize>) -> bool {
    forall|cpu: int|
        0 <= cpu < usize::BITS ==> (#[trigger] has_cpu(mask, cpu) <==> has_cpu(before, cpu)
            || indexes.contains(cpu as usize))
}

pub proof fn lemma_empty_mask(cpu: int)
    ensures
        !has_cpu(0, cpu),
{
    if 0 <= cpu < usize::BITS {
        let c = cpu as usize;
        assert((0usize >> c) & 1 == 0) by (bit_vector);
    }
}

/// Setting the bit of one processor adds that processor and no other.
pub proof fn lemma_insert_cpu(mask: usize, cpu: usize)
    requires
        cpu < usize::BITS,
    ensures
        cpus(mask | (1usize << cpu)) =~= cpus(mask).insert(cpu as int),
        forall|other: int| #[trigger]
            has_cpu(mask | (1usize << cpu), other) <==> other == cpu || has_cpu(mask, other),
{
    assert forall|other: int| #[trigger]
        has_cpu(mask | (1usize << cpu), other) <==> other == cpu || has_cpu(mask, other) by {
        if 0 <= other < usize::BITS {
            let o = other as usize;
            assert((((mask | (1usize << cpu)) >> o) & 1 == 1) <==> (o == cpu || (mask >> o) & 1
                == 1)) by (bit_vector)
                requires
                    cpu < usize::BITS,
                    o < usize::BITS,
            ;
        }
    }
}

/// The bitwise conjunction of two masks is the intersection of their processors.
pub proof fn lemma_intersect(a: usize, b: usize)
    ensures
        cpus(a & b) =~= cpus(a).intersect(cpus(b)),
        forall|cpu: int| #[trigger] has_cpu(a & b, cpu) <==> has_cpu(a, cpu) && has_cpu(b, cpu),
{
    assert forall|cpu: int| #[trigger]
        has_cpu(a & b, cpu) <==> has_cpu(a, cpu) && has_cpu(b, cpu) by {
        if 0 <= cpu < usize::BITS {
            let c = cpu as usize;
            assert((((a & b) >> c) & 1 == 1) <==> ((a >> c) & 1 == 1 && (b >> c) & 1 == 1))
                by (bit_vector);
        }
    }
}

/// A processor of `mask >> 1` is its successor in `mask`.
proof fn lemma_shift_down(mask: usize, cpu: int)
    requires
        0 <= cpu < usize::BITS - 1,
    ensures
        has_cpu((mask / 2) as usize, cpu) == has_cpu(mask, cpu + 1),
{
    let c = cpu as usize;
    let d = (cpu + 1) as usize;
    assert(((mask / 2) >> c) & 1 == (mask >> d) & 1) by (bit_vector)
        requires
            d == c + 1,
            d < usize::BITS,
    ;
}

proof fn lemma_equal_below(a: usize, b: usize, width: nat)
    requires
        width <= usize::BITS,
        (a as int) < vstd::arithmetic::power2::pow2(width),
        (b as int) < vstd::arithmetic::power2::pow2(width),
        forall|cpu: int| 0 <= cpu < width ==> has_cpu(a, cpu) == has_cpu(b, cpu),
    ensures
        a == b,
    decreases width,
{
    if width == 0 {
        vstd::arithmetic::power2::lemma2_to64();
    } else {
        vstd::arithmetic::power2::lemma_pow2_unfold(width);
        assert(has_cpu(a, 0) == has_cpu(b, 0));
        assert((a >> 0usize) & 1 == a % 2) by (bit_vector);
        assert((b >> 0usize) & 1 == b % 2) by (bit_vector);
        let low_a = (a / 2) as usize;
        let low_b = (b / 2) as usize;
        assert forall|cpu: int| 0 <= cpu < width - 1 implies #[trigger] has_cpu(low_a, cpu) == has_cpu(
            low_b,
            cpu,
        ) by {
            lemma_shift_down(a, cpu);
            lemma_shift_down(b, cpu);
            assert(has_cpu(a, cpu + 1) == has_cpu(b, cpu + 1));
        }
        lemma_equal_below(low_a, low_b, (width - 1) as nat);
    }
}

/// Two masks with the same processors are the same mask.
pub proof fn lemma_extensional(a: usize, b: usize)
    requires
        forall|cpu: int| 0 <= cpu < usize::BITS ==> has_cpu(a, cpu) == has_cpu(b, cpu),
    ensures
        a == b,
{
    vstd::arithmetic::power2::lemma2_to64();
    vstd::arithmetic::power2::lemma2_to64_rest();
    lemma_equal_below(a, b, usize::BITS as nat);
}

/// A mask is zero exactly when it has no processor.
pub proof fn lemma_zero_iff_no_cpu(mask: usize)
    ensures
        mask == 0 <==> (forall|cpu: int| 0 <= cpu < usize::BITS ==> !has_cpu(mask, cpu)),
        mask == 0 <==> cpus(mask) =~= Set::<int>::empty(),
{
    assert forall|cpu: int| !has_cpu(0, cpu) by {
        lemma_empty_mask(cpu);
    }
    if forall|cpu: int| 0 <= cpu < usize::BITS ==> !has_cpu(mask, cpu) {
        lemma_extensional(mask, 0);
    }
    if mask != 0 {
        let cpu = choose|cpu: int| 0 <= cpu < usize::BITS && has_cpu(mask, cpu);
        assert(cpus(mask).contains(cpu));
    }
}

/// Tells whether `cpu` is a member of `mask`.
pub fn contains_cpu(mask: usize, cpu: usize) -> (present: bool)
    ensures
        present == has_cpu(mask, cpu as int),
{
    if cpu >= usize::BITS as usize {
        return false;
    }
    (mask >> cpu) & 1 == 1
}

/// `mask` with `cpu` added.
pub fn with_cpu(mask: usize, cpu: usize) -> (widened: usize)
    requires
        cpu < usize::BITS,
    ensures
        cpus(widened) == cpus(mask).insert(cpu as int),
        forall|other: int| #[trigger]
            has_cpu(widened, other) <==> other == cpu || has_cpu(mask, other),
{
    proof {
        lemma_insert_cpu(mask, cpu);
    }
    mask | (1usize << cpu)
}

/// The processors that are members of both masks.
pub fn common_cpus(a: usize, b: usize) -> (common: usize)
    ensures
        cpus(common) == cpus(a).intersect(cpus(b)),
        forall|cpu: int| #[trigger] has_cpu(common, cpu) <==> has_cpu(a, cpu) && has_cpu(b, cpu),
{
    proof {
        lemma_intersect(a, b);
    }
    a & b
}

} // verus!
