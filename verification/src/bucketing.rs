//! Time bucketing.
//!
//! The planning time axis of an item is the ordered, duplicate-free
//! union of every date on which one of its demands falls due or one of
//! its supplies arrives.  No daily grid is synthesised: only
//! event-bearing dates become buckets.

use vstd::prelude::*;

use crate::date::Date;
use crate::demand::Demand;
use crate::supply::Supply;

verus! {

/// Whether a date sequence is strictly increasing.
pub open spec fn spec_strictly_sorted(s: Seq<Date>) -> bool {
    forall|i: int, j: int| 0 <= i < j < s.len() ==> s[i]@ < s[j]@
}

/// Whether day `d` occurs in the date sequence.
pub open spec fn spec_has_date(s: Seq<Date>, d: int) -> bool {
    exists|i: int| 0 <= i < s.len() && s[i]@ == d
}

/// Day `d` inserted into a strictly sorted day sequence; a day already
/// present is not inserted twice.
pub open spec fn spec_insert_day(s: Seq<int>, d: int) -> Seq<int>
    decreases s.len(),
{
    if s.len() == 0 {
        seq![d]
    } else if d < s[0] {
        seq![d] + s
    } else if d == s[0] {
        s
    } else {
        seq![s[0]] + spec_insert_day(s.drop_first(), d)
    }
}

/// The axis `s` with every required date of `ds` from index `i` on
/// inserted.
pub open spec fn spec_add_demand_days(s: Seq<int>, ds: Seq<crate::demand::DemandView>, i: int) -> Seq<int>
    decreases ds.len() - i,
{
    if i < 0 || i >= ds.len() {
        s
    } else {
        spec_add_demand_days(spec_insert_day(s, ds[i].required_date), ds, i + 1)
    }
}

/// The axis `s` with every available date of `ss` from index `i` on
/// inserted.
pub open spec fn spec_add_supply_days(s: Seq<int>, ss: Seq<crate::supply::SupplyView>, i: int) -> Seq<int>
    decreases ss.len() - i,
{
    if i < 0 || i >= ss.len() {
        s
    } else {
        spec_add_supply_days(spec_insert_day(s, ss[i].available_date), ss, i + 1)
    }
}

/// The time axis of a demand and supply population: every event date
/// inserted, in input order, into an initially empty sorted axis.
pub open spec fn spec_axis_days(
    ds: Seq<crate::demand::DemandView>,
    ss: Seq<crate::supply::SupplyView>,
) -> Seq<int> {
    spec_add_supply_days(spec_add_demand_days(Seq::empty(), ds, 0), ss, 0)
}

/// Inserts `date` into a strictly sorted vector, keeping it strictly
/// sorted; a date already present is not inserted twice.
pub(crate) fn insert_sorted_unique(v: &mut Vec<Date>, date: Date)
    requires
        spec_strictly_sorted(old(v)@),
    ensures
        spec_strictly_sorted(final(v)@),
        forall|d: int| spec_has_date(final(v)@, d) <==> spec_has_date(old(v)@, d) || d == date@,
        crate::netting::spec_day_views(final(v)@) == spec_insert_day(
            crate::netting::spec_day_views(old(v)@),
            date@,
        ),
{
    let ghost days0 = crate::netting::spec_day_views(old(v)@);
    proof {
        assert(days0.take(0) =~= Seq::<int>::empty());
        assert(days0.skip(0) =~= days0);
        assert(Seq::<int>::empty() + spec_insert_day(days0, date@) =~= spec_insert_day(
            days0,
            date@,
        ));
    }
    let mut i: usize = 0;
    while i < v.len()
        invariant
            0 <= i <= v@.len(),
            spec_strictly_sorted(v@),
            *v == *old(v),
            days0 == crate::netting::spec_day_views(v@),
            forall|j: int| 0 <= j < i ==> v@[j]@ < date@,
            spec_insert_day(days0, date@) == days0.take(i as int) + spec_insert_day(
                days0.skip(i as int),
                date@,
            ),
        ensures
            0 <= i <= v@.len(),
            *v == *old(v),
            days0 == crate::netting::spec_day_views(v@),
            forall|j: int| 0 <= j < i ==> v@[j]@ < date@,
            i < v@.len() ==> date@ < v@[i as int]@,
            spec_insert_day(days0, date@) == days0.take(i as int) + spec_insert_day(
                days0.skip(i as int),
                date@,
            ),
        decreases v@.len() - i,
    {
        proof {
            assert(days0.take(0) =~= Seq::<int>::empty());
            assert(days0.skip(0) =~= days0);
            assert(days0[i as int] == v@[i as int]@);
        }
        if date.lt_date(&v[i]) {
            break ;
        }
        if v[i].eq_date(&date) {
            proof {
                assert(days0.skip(i as int)[0] == days0[i as int]);
                assert(spec_insert_day(days0.skip(i as int), date@) == days0.skip(i as int));
                assert(days0.take(i as int) + days0.skip(i as int) =~= days0);
            }
            return ;
        }
        proof {
            assert(days0.skip(i as int)[0] == days0[i as int]);
            assert(days0.skip(i as int).drop_first() =~= days0.skip(i as int + 1));
            assert(spec_insert_day(days0.skip(i as int), date@) == seq![days0[i as int]]
                + spec_insert_day(days0.skip(i as int + 1), date@));
            assert(days0.take(i as int) + (seq![days0[i as int]] + spec_insert_day(
                days0.skip(i as int + 1),
                date@,
            )) =~= days0.take(i as int + 1) + spec_insert_day(days0.skip(i as int + 1), date@));
        }
        i += 1;
    }
    proof {
        if i < v@.len() {
            assert(days0.skip(i as int)[0] == days0[i as int]);
            assert(spec_insert_day(days0.skip(i as int), date@) == seq![date@] + days0.skip(
                i as int,
            ));
        } else {
            assert(days0.skip(i as int) =~= Seq::<int>::empty());
            assert(spec_insert_day(days0.skip(i as int), date@) == seq![date@]);
            assert(seq![date@] =~= seq![date@] + Seq::<int>::empty());
        }
    }
    let ghost before = v@;
    v.insert(i, date);
    proof {
        assert(v@ == before.insert(i as int, date));
        assert(crate::netting::spec_day_views(v@) =~= days0.take(i as int) + (seq![date@]
            + days0.skip(i as int)));
        assert forall|a: int, b: int| 0 <= a < b < v@.len() implies v@[a]@ < v@[b]@ by {
            if b < i {
                assert(v@[a] == before[a] && v@[b] == before[b]);
            } else if a < i && b == i {
                assert(v@[a] == before[a]);
            } else if a < i && b > i {
                assert(v@[a] == before[a] && v@[b] == before[b - 1]);
                assert(before[a]@ < date@);
                if b - 1 == i {
                } else {
                    assert(date@ < before[i as int]@);
                    assert(before[i as int]@ <= before[b - 1]@) by {
                        if i < b - 1 {
                            assert(before[i as int]@ < before[b - 1]@);
                        }
                    }
                }
            } else if a == i {
                assert(v@[b] == before[b - 1]);
                assert(date@ < before[i as int]@);
                if b - 1 > i {
                    assert(before[i as int]@ < before[b - 1]@);
                }
            } else {
                assert(v@[a] == before[a - 1] && v@[b] == before[b - 1]);
            }
        }
        assert forall|d: int|
            spec_has_date(v@, d) <==> spec_has_date(old(v)@, d) || d == date@ by {
            if spec_has_date(v@, d) {
                let k = choose|k: int| 0 <= k < v@.len() && v@[k]@ == d;
                if k < i {
                    assert(old(v)@[k]@ == d);
                } else if k > i {
                    assert(old(v)@[k - 1]@ == d);
                }
            }
            if spec_has_date(old(v)@, d) {
                let k = choose|k: int| 0 <= k < old(v)@.len() && old(v)@[k]@ == d;
                if k < i {
                    assert(v@[k]@ == d);
                } else {
                    assert(v@[k + 1]@ == d);
                }
            }
            if d == date@ {
                assert(v@[i as int]@ == d);
            }
        }
    }
}

/// How a fixed-period axis spaces its buckets.
#[derive(Debug, Clone, Copy, PartialEq, Eq, Structural)]
pub enum BucketingStrategy {
    /// One bucket per day.
    Daily,
    /// One bucket per seven days.
    Weekly,
    /// One bucket per thirty days.
    Monthly,
}

/// Days between consecutive buckets of a strategy.
pub open spec fn spec_strategy_step(strategy: BucketingStrategy) -> int {
    match strategy {
        BucketingStrategy::Daily => 1,
        BucketingStrategy::Weekly => 7,
        BucketingStrategy::Monthly => 30,
    }
}

/// Builds planning time axes.
pub struct BucketingCalculator;

impl BucketingCalculator {
    /// The ordered, duplicate-free union of all demand and supply dates.
    /// The planning horizon is accepted but adds no buckets of its own.
    pub fn create_time_buckets(
        demands: &Vec<Demand>,
        supplies: &Vec<Supply>,
        _planning_horizon_days: u32,
    ) -> (r: Vec<Date>)
        ensures
            spec_strictly_sorted(r@),
            forall|d: int|
                spec_has_date(r@, d) <==> (exists|i: int|
                    0 <= i < demands@.len() && demands@[i].required_date@ == d) || (exists|i: int|
                    0 <= i < supplies@.len() && supplies@[i].available_date@ == d),
            crate::netting::spec_day_views(r@) == spec_axis_days(
                crate::netting::spec_demand_views(demands@),
                crate::netting::spec_supply_views(supplies@),
            ),
    {
        let ghost dv = crate::netting::spec_demand_views(demands@);
        let ghost sv = crate::netting::spec_supply_views(supplies@);
        let mut dates: Vec<Date> = Vec::new();
        proof {
            assert(crate::netting::spec_day_views(dates@) =~= Seq::<int>::empty());
        }
        let mut i: usize = 0;
        while i < demands.len()
            invariant
                0 <= i <= demands@.len(),
                dv == crate::netting::spec_demand_views(demands@),
                spec_strictly_sorted(dates@),
                forall|d: int|
                    spec_has_date(dates@, d) <==> (exists|j: int|
                        0 <= j < i && demands@[j].required_date@ == d),
                spec_add_demand_days(crate::netting::spec_day_views(dates@), dv, i as int)
                    == spec_add_demand_days(Seq::empty(), dv, 0),
            decreases demands@.len() - i,
        {
            proof {
                assert(dv[i as int] == demands@[i as int]@);
            }
            insert_sorted_unique(&mut dates, demands[i].required_date);
            i += 1;
        }
        let mut k: usize = 0;
        while k < supplies.len()
            invariant
                0 <= k <= supplies@.len(),
                dv == crate::netting::spec_demand_views(demands@),
                sv == crate::netting::spec_supply_views(supplies@),
                spec_strictly_sorted(dates@),
                forall|d: int|
                    spec_has_date(dates@, d) <==> (exists|j: int|
                        0 <= j < demands@.len() && demands@[j].required_date@ == d) || (exists|
                        j: int,
                    |
                        0 <= j < k && supplies@[j].available_date@ == d),
                spec_add_supply_days(crate::netting::spec_day_views(dates@), sv, k as int)
                    == spec_axis_days(dv, sv),
            decreases supplies@.len() - k,
        {
            proof {
                assert(sv[k as int] == supplies@[k as int]@);
            }
            insert_sorted_unique(&mut dates, supplies[k].available_date);
            k += 1;
        }
        dates
    }

    /// An axis of evenly spaced buckets from `start_date` up to
    /// `end_date`, spaced by the strategy's step.
    pub fn create_buckets_by_strategy(
        start_date: Date,
        end_date: Date,
        strategy: BucketingStrategy,
    ) -> (r: Vec<Date>)
        requires
            end_date@ + 30 <= i64::MAX,
            i64::MIN <= end_date@ - start_date@ <= i64::MAX,
        ensures
            start_date@ > end_date@ ==> r@.len() == 0,
            start_date@ <= end_date@ ==> r@.len() >= 1 && r@[0]@ == start_date@ && r@[r@.len()
                - 1]@ <= end_date@ && r@[r@.len() - 1]@ + spec_strategy_step(strategy)
                > end_date@,
            forall|i: int|
                0 <= i < r@.len() - 1 ==> #[trigger] r@[i + 1]@ == r@[i]@ + spec_strategy_step(
                    strategy,
                ),
            spec_strictly_sorted(r@),
    {
        let step: i64 = match strategy {
            BucketingStrategy::Daily => 1,
            BucketingStrategy::Weekly => 7,
            BucketingStrategy::Monthly => 30,
        };
        let mut buckets: Vec<Date> = Vec::new();
        let mut current = start_date;
        while current.le_date(&end_date)
            invariant
                step == spec_strategy_step(strategy),
                end_date@ + 30 <= i64::MAX,
                buckets@.len() == 0 ==> current == start_date,
                buckets@.len() >= 1 ==> buckets@[0]@ == start_date@ && buckets@[buckets@.len()
                    - 1]@ <= end_date@ && current@ == buckets@[buckets@.len() - 1]@ + step,
                forall|i: int|
                    0 <= i < buckets@.len() - 1 ==> #[trigger] buckets@[i + 1]@ == buckets@[i]@
                        + step,
                spec_strictly_sorted(buckets@),
                current@ >= start_date@,
            decreases end_date@ + 30 - current@,
        {
            buckets.push(current);
            current = Date::from_days(current.days() + step);
        }
        buckets
    }

    /// Sorts an axis and removes duplicate dates.
    pub fn merge_buckets(buckets: &mut Vec<Date>)
        ensures
            spec_strictly_sorted(final(buckets)@),
            forall|d: int| spec_has_date(final(buckets)@, d) <==> spec_has_date(old(buckets)@, d),
    {
        let mut merged: Vec<Date> = Vec::new();
        let mut i: usize = 0;
        while i < buckets.len()
            invariant
                0 <= i <= buckets@.len(),
                *buckets == *old(buckets),
                spec_strictly_sorted(merged@),
                forall|d: int|
                    spec_has_date(merged@, d) <==> (exists|j: int|
                        0 <= j < i && buckets@[j]@ == d),
            decreases buckets@.len() - i,
        {
            insert_sorted_unique(&mut merged, buckets[i]);
            i += 1;
        }
        *buckets = merged;
    }
}

} // verus!
