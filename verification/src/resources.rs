//! What is made of the samples of the memory in use.

use vstd::prelude::*;

verus! {

/// The sum of some samples.
pub open spec fn total(samples: Seq<u64>) -> nat
    decreases samples.len(),
{
    if samples.len() == 0 {
        0
    } else {
        total(samples.drop_last()) + samples.last() as nat
    }
}

/// A part from the start of some samples sums to no more than all of them.
proof fn lemma_total_of_part(samples: Seq<u64>, n: int)
    requires
        0 <= n <= samples.len(),
    ensures
        total(samples.take(n)) <= total(samples),
    decreases samples.len() - n,
{
    if n < samples.len() {
        lemma_total_of_part(samples, n + 1);
        assert(samples.take(n + 1).drop_last() =~= samples.take(n));
    } else {
        assert(samples.take(n) =~= samples);
    }
}

/// The sum of some samples, if it is a number of 64 bits.
pub fn sample_total(samples: &[u64]) -> (r: Option<u64>)
    ensures
        r == (if total(samples@) <= u64::MAX {
            Some(total(samples@) as u64)
        } else {
            None
        }),
{
    let mut sum: u64 = 0;
    let mut i: usize = 0;
    while i < samples.len()
        invariant
            i <= samples@.len(),
            sum == total(samples@.take(i as int)),
        decreases samples@.len() - i,
    {
        proof {
            assert(samples@.take(i + 1).drop_last() =~= samples@.take(i as int));
            lemma_total_of_part(samples@, i + 1);
        }
        match sum.checked_add(samples[i]) {
            Some(next) => {
                sum = next;
            },
            None => {
                return None;
            },
        }
        i = i + 1;
    }
    assert(samples@.take(samples@.len() as int) =~= samples@);
    Some(sum)
}

/// No samples sum to nothing, one to itself, and the sum of two lots is that of their sums.
pub proof fn law_totals_add_up(a: Seq<u64>, b: Seq<u64>, sample: u64)
    ensures
        total(Seq::empty()) == 0,
        total(seq![sample]) == sample,
        total(a + b) == total(a) + total(b),
    decreases b.len(),
{
    assert(seq![sample].drop_last() =~= Seq::<u64>::empty());
    reveal_with_fuel(total, 2);
    if b.len() > 0 {
        law_totals_add_up(a, b.drop_last(), sample);
        assert((a + b).drop_last() =~= a + b.drop_last());
        assert((a + b).last() == b.last());
    } else {
        assert(a + b =~= a);
    }
}

} // verus!
