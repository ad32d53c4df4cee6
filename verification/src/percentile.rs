//! Percentiles of round-trip times.

use vstd::prelude::*;
use vstd::relations::{sorted_by, total_ordering};
use vstd::seq_lib::lemma_sorted_unique;
use vstd::slice::slice_to_vec;

verus! {

/// The order of numbers.
pub open spec fn at_most() -> spec_fn(u64, u64) -> bool {
    |a: u64, b: u64| a <= b
}

/// The values in ascending order.
pub open spec fn ascending(v: Seq<u64>) -> Seq<u64> {
    v.sort_by(at_most())
}

/// The percentiles that are reported.
#[derive(Clone, Copy, Debug, PartialEq, Eq, Structural)]
pub enum Percentile {
    Median,
    P95,
    P99,
}

impl Percentile {
    /// How much of the values lies below, in hundredths.
    pub open spec fn percent(self) -> nat {
        match self {
            Percentile::Median => 50,
            Percentile::P95 => 95,
            Percentile::P99 => 99,
        }
    }
}

/// The value at a place, counted from zero among the values in ascending order; the last one
/// where the place is past it, and nothing where there are no values.
pub open spec fn value_at(v: Seq<u64>, place: int) -> Option<u64> {
    if v.len() == 0 {
        None
    } else if place < v.len() {
        Some(ascending(v)[place])
    } else {
        Some(ascending(v).last())
    }
}

/// The place, counted from zero among `n` ascending values, of a percentile: so many
/// hundredths of the way from the first to the last, rounded to the nearest place, halves up.
///
/// In double precision, the product of the percentile, as a fraction, and the last place
/// rounds to the same place, for each of these percentiles and for up to 2 to the 40 values.
/// That is not so of every percent: 29 hundredths of 50 fall just below a half there.
pub open spec fn percentile_place(n: nat, which: Percentile) -> int {
    (which.percent() * (n - 1) + 50) / 100
}

/// A percentile of the values, or nothing where there are none.
pub open spec fn percentile(v: Seq<u64>, which: Percentile) -> Option<u64> {
    value_at(v, percentile_place(v.len(), which))
}

/// Calls `slice::sort_unstable`, which puts the values in ascending order.
#[verifier::external_body]
fn sort(v: &mut Vec<u64>)
    ensures
        final(v)@.to_multiset() == old(v)@.to_multiset(),
        forall|i: int, j: int| 0 <= i <= j < final(v)@.len() ==> final(v)@[i] <= final(v)@[j],
{
    v.sort_unstable()
}

/// Values in ascending order are the only ones with the same members that are.
pub proof fn law_ascending_is_the_sorted_one(v: Seq<u64>, sorted: Seq<u64>)
    requires
        sorted.to_multiset() == v.to_multiset(),
        forall|i: int, j: int| 0 <= i <= j < sorted.len() ==> sorted[i] <= sorted[j],
    ensures
        sorted == ascending(v),
{
    let leq = at_most();
    assert(total_ordering(leq));
    v.lemma_sort_by_ensures(leq);
    assert(sorted_by(sorted, leq));
    lemma_sorted_unique(sorted, ascending(v), leq);
}

/// The values in ascending order are as many as the values, are ascending, and are the same
/// values.
proof fn lemma_ascending(v: Seq<u64>)
    ensures
        ascending(v).len() == v.len(),
        forall|i: int, j: int| 0 <= i <= j < v.len() ==> ascending(v)[i] <= ascending(v)[j],
        forall|i: int| 0 <= i < v.len() ==> v.contains(#[trigger] ascending(v)[i]),
        forall|i: int| 0 <= i < v.len() ==> ascending(v).contains(#[trigger] v[i]),
        ascending(v).to_multiset() == v.to_multiset(),
{
    let leq = at_most();
    let s = ascending(v);
    assert(total_ordering(leq));
    v.lemma_sort_by_ensures(leq);
    v.to_multiset_ensures();
    s.to_multiset_ensures();
    assert forall|i: int, j: int| 0 <= i <= j < v.len() implies s[i] <= s[j] by {
        if i < j {
            assert(leq(s[i], s[j]));
        }
    }
    assert forall|i: int| 0 <= i < v.len() implies v.contains(#[trigger] s[i]) by {
        assert(s.contains(s[i]));
    }
    assert forall|i: int| 0 <= i < v.len() implies s.contains(#[trigger] v[i]) by {
        assert(v.contains(v[i]));
        assert(s.to_multiset().contains(v[i]));
    }
}

/// The value at a place, counted from zero among the values in ascending order; the last one
/// where the place is past it, and nothing where there are no values.
pub fn value_at_place(v: &[u64], place: usize) -> (r: Option<u64>)
    ensures
        r == value_at(v@, place as int),
{
    let n: usize = v.len();
    if n == 0 {
        return None;
    }
    let mut s: Vec<u64> = slice_to_vec(v);
    sort(&mut s);
    proof {
        law_ascending_is_the_sorted_one(v@, s@);
        lemma_ascending(v@);
    }
    if place < n {
        Some(s[place])
    } else {
        Some(s[n - 1])
    }
}

/// A percentile of the values, or nothing where there are none.
pub fn percentile_us(v: &[u64], which: Percentile) -> (r: Option<u64>)
    ensures
        r == percentile(v@, which),
{
    let n: usize = v.len();
    if n == 0 {
        return None;
    }
    let percent: u128 = match which {
        Percentile::Median => 50,
        Percentile::P95 => 95,
        Percentile::P99 => 99,
    };
    let place: u128 = (percent * ((n - 1) as u128) + 50) / 100;
    value_at_place(v, place as usize)
}

/// The value at a place is one of the values, and no less than the value at an earlier place.
pub proof fn law_places_are_ordered(v: Seq<u64>, low: int, high: int)
    requires
        v.len() > 0,
        0 <= low <= high,
    ensures
        value_at(v, low) is Some,
        value_at(v, high) is Some,
        v.contains(value_at(v, low)->0),
        v.contains(value_at(v, high)->0),
        value_at(v, low)->0 <= value_at(v, high)->0,
{
    lemma_ascending(v);
}

/// The value at the first place is the least, and that at the last place, or past it, is the
/// greatest.
pub proof fn law_extreme_places(v: Seq<u64>, place: int)
    requires
        v.len() > 0,
        place >= v.len() - 1,
    ensures
        value_at(v, 0) is Some,
        value_at(v, place) is Some,
        forall|i: int|
            0 <= i < v.len() ==> value_at(v, 0)->0 <= #[trigger] v[i] <= value_at(v, place)->0,
{
    lemma_ascending(v);
    let s = ascending(v);
    assert forall|i: int| 0 <= i < v.len() implies value_at(v, 0)->0 <= #[trigger] v[i] <= value_at(
        v,
        place,
    )->0 by {
        assert(s.contains(v[i]));
        let k = choose|k: int| 0 <= k < s.len() && s[k] == v[i];
        assert(s[0] <= s[k] <= s[s.len() - 1]);
    }
}

/// The order of the values does not matter: with the same members, the value at any place, and
/// so any percentile, is the same.
pub proof fn law_order_of_values_does_not_matter(
    v: Seq<u64>,
    w: Seq<u64>,
    place: int,
    which: Percentile,
)
    requires
        v.to_multiset() == w.to_multiset(),
    ensures
        ascending(v) == ascending(w),
        value_at(v, place) == value_at(w, place),
        percentile(v, which) == percentile(w, which),
{
    v.to_multiset_ensures();
    w.to_multiset_ensures();
    lemma_ascending(v);
    law_ascending_is_the_sorted_one(w, ascending(v));
}

/// A percentile of some values is one of them, no less than a lower percentile, and between
/// the least and the greatest.
pub proof fn law_percentiles_are_ordered(v: Seq<u64>, low: Percentile, high: Percentile)
    requires
        v.len() > 0,
        low.percent() <= high.percent(),
    ensures
        percentile(v, low) is Some,
        percentile(v, high) is Some,
        v.contains(percentile(v, low)->0),
        percentile(v, low)->0 <= percentile(v, high)->0,
        ascending(v)[0] <= percentile(v, low)->0,
        percentile(v, high)->0 <= ascending(v).last(),
{
    lemma_ascending(v);
}

/// The value at a place is the one there in any ascending order of the values, and the last
/// one past the end.
pub proof fn law_value_is_found_by_sorting(v: Seq<u64>, sorted: Seq<u64>, place: int)
    requires
        sorted.to_multiset() == v.to_multiset(),
        forall|i: int, j: int| 0 <= i <= j < sorted.len() ==> sorted[i] <= sorted[j],
        0 <= place,
    ensures
        v.len() == 0 <==> value_at(v, place) is None,
        place < v.len() ==> value_at(v, place) == Some(sorted[place]),
        place >= v.len() > 0 ==> value_at(v, place) == Some(sorted[v.len() - 1]),
{
    law_ascending_is_the_sorted_one(v, sorted);
    lemma_ascending(v);
}

/// A percentile is the value at the place that is nearest to so many hundredths of the way from
/// the first place to the last, the later one where two are as near.
pub proof fn law_percentile_place_is_nearest(v: Seq<u64>, which: Percentile, place: int)
    requires
        v.len() > 0,
    ensures
        Percentile::Median.percent() == 50,
        Percentile::P95.percent() == 95,
        Percentile::P99.percent() == 99,
        -50 < 100 * place - which.percent() * (v.len() - 1) <= 50 ==> percentile(v, which)
            == value_at(v, place) && 0 <= place < v.len(),
{
    let n = v.len();
    match which {
        Percentile::Median => {
            assert(which.percent() * (n - 1) == 50 * (n - 1));
        },
        Percentile::P95 => {
            assert(which.percent() * (n - 1) == 95 * (n - 1));
        },
        Percentile::P99 => {
            assert(which.percent() * (n - 1) == 99 * (n - 1));
        },
    }
}

} // verus!
