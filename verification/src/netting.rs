//! Netting: projected on-hand and net requirements per bucket.
//!
//! Walking the time axis in order, each bucket aggregates the demands
//! due and the supplies arriving on that exact day, and carries the
//! running projected-on-hand balance forward.  The bucket's net
//! requirement is the shortfall against the safety floor - or against
//! zero, when negative stock is allowed - insofar as it newly arises
//! there: a deficit the balance merely carries forward was already
//! surfaced at an earlier bucket, and lot sizing covers each shortfall
//! once.  Without this, an item whose axis extends past its last event
//! would be ordered for again at every later bucket.

use vstd::prelude::*;

use crate::date::Date;
use crate::demand::{Demand, DemandView};
use crate::error::MrpError;
use crate::qty::{fits_qty, Qty};
use crate::supply::{Supply, SupplyView};

verus! {

broadcast use crate::qty::lemma_qty_fits;

/// The view sequence of a demand sequence.
pub open spec fn spec_demand_views(s: Seq<Demand>) -> Seq<DemandView> {
    s.map_values(|d: Demand| d@)
}

/// The view sequence of a supply sequence.
pub open spec fn spec_supply_views(s: Seq<Supply>) -> Seq<SupplyView> {
    s.map_values(|s: Supply| s@)
}

/// Total demand quantity falling due on day `t`.
pub open spec fn spec_gross_at(demands: Seq<DemandView>, t: int) -> int
    decreases demands.len(),
{
    if demands.len() == 0 {
        0
    } else {
        spec_gross_at(demands.drop_last(), t) + if demands.last().required_date == t {
            demands.last().quantity
        } else {
            0int
        }
    }
}

/// Total supply quantity arriving on day `t`.
pub open spec fn spec_receipt_at(supplies: Seq<SupplyView>, t: int) -> int
    decreases supplies.len(),
{
    if supplies.len() == 0 {
        0
    } else {
        spec_receipt_at(supplies.drop_last(), t) + if supplies.last().available_date == t {
            supplies.last().quantity
        } else {
            0int
        }
    }
}

/// Projected on-hand after bucket `i`; `i == -1` is the opening stock.
pub open spec fn spec_poh(
    demands: Seq<DemandView>,
    supplies: Seq<SupplyView>,
    initial: int,
    buckets: Seq<int>,
    i: int,
) -> int
    decreases i + 1,
{
    if i < 0 {
        initial
    } else {
        spec_poh(demands, supplies, initial, buckets, i - 1) + spec_receipt_at(supplies, buckets[i])
            - spec_gross_at(demands, buckets[i])
    }
}

/// The stock floor netting defends: the safety stock, or zero when
/// negative stock is allowed.
pub open spec fn spec_floor(safety_stock: int, allow_negative: bool) -> int {
    if allow_negative {
        0
    } else {
        safety_stock
    }
}

/// Shortfall against the floor after bucket `i`.
pub open spec fn spec_shortfall(
    demands: Seq<DemandView>,
    supplies: Seq<SupplyView>,
    initial: int,
    safety_stock: int,
    buckets: Seq<int>,
    allow_negative: bool,
    i: int,
) -> int {
    let p = spec_poh(demands, supplies, initial, buckets, i);
    let target = spec_floor(safety_stock, allow_negative);
    if p < target {
        target - p
    } else {
        0int
    }
}

/// The largest shortfall seen through bucket `i`: what earlier buckets
/// have already surfaced for lot sizing to cover.
pub open spec fn spec_cover(
    demands: Seq<DemandView>,
    supplies: Seq<SupplyView>,
    initial: int,
    safety_stock: int,
    buckets: Seq<int>,
    allow_negative: bool,
    i: int,
) -> int
    decreases i + 1,
{
    if i < 0 {
        0
    } else {
        let prev = spec_cover(demands, supplies, initial, safety_stock, buckets, allow_negative, i - 1);
        let s = spec_shortfall(demands, supplies, initial, safety_stock, buckets, allow_negative, i);
        if s > prev {
            s
        } else {
            prev
        }
    }
}

/// Net requirement at bucket `i`: the shortfall newly arising there,
/// beyond what earlier buckets already surfaced.
pub open spec fn spec_net_req(
    demands: Seq<DemandView>,
    supplies: Seq<SupplyView>,
    initial: int,
    safety_stock: int,
    buckets: Seq<int>,
    allow_negative: bool,
    i: int,
) -> int {
    let s = spec_shortfall(demands, supplies, initial, safety_stock, buckets, allow_negative, i);
    let covered = spec_cover(demands, supplies, initial, safety_stock, buckets, allow_negative, i - 1);
    if s > covered {
        s - covered
    } else {
        0int
    }
}

/// Whether the values computed at bucket `i` fit the quantity
/// representation.
pub open spec fn spec_bucket_fits(
    demands: Seq<DemandView>,
    supplies: Seq<SupplyView>,
    initial: int,
    safety_stock: int,
    buckets: Seq<int>,
    allow_negative: bool,
    i: int,
) -> bool {
    let prev = spec_poh(demands, supplies, initial, buckets, i - 1);
    let rec = spec_receipt_at(supplies, buckets[i]);
    let gross = spec_gross_at(demands, buckets[i]);
    let target = if allow_negative {
        0int
    } else {
        safety_stock
    };
    fits_qty(gross) && fits_qty(rec) && fits_qty(prev + rec) && fits_qty(prev + rec - gross)
        && fits_qty(target - (prev + rec - gross))
}

/// Whether every value the netting walk computes fits the quantity
/// representation.
pub open spec fn spec_netting_fits(
    demands: Seq<DemandView>,
    supplies: Seq<SupplyView>,
    initial: int,
    safety_stock: int,
    buckets: Seq<int>,
    allow_negative: bool,
) -> bool {
    forall|i: int|
        0 <= i < buckets.len() ==> #[trigger] spec_bucket_fits(
            demands,
            supplies,
            initial,
            safety_stock,
            buckets,
            allow_negative,
            i,
        )
}

/// The day numbers of a date sequence.
pub open spec fn spec_day_views(s: Seq<Date>) -> Seq<int> {
    s.map_values(|d: Date| d@)
}

/// One bucket of a netting result.
#[derive(Debug, Clone, Copy)]
pub struct NetRequirement {
    /// The bucket's day.
    pub date: Date,
    /// Demand falling due on that day.
    pub gross_requirement: Qty,
    /// Supply arriving on that day.
    pub scheduled_receipt: Qty,
    /// Stock balance carried out of the bucket.
    pub projected_on_hand: Qty,
    /// Shortfall that planned orders must cover.
    pub net_requirement: Qty,
}

/// The mathematical image of a `NetRequirement`.
pub struct NetRequirementView {
    pub date: int,
    pub gross_requirement: int,
    pub scheduled_receipt: int,
    pub projected_on_hand: int,
    pub net_requirement: int,
}

impl View for NetRequirement {
    type V = NetRequirementView;

    open spec fn view(&self) -> NetRequirementView {
        NetRequirementView {
            date: self.date@,
            gross_requirement: self.gross_requirement@,
            scheduled_receipt: self.scheduled_receipt@,
            projected_on_hand: self.projected_on_hand@,
            net_requirement: self.net_requirement@,
        }
    }
}

/// The view sequence of a netting result.
pub open spec fn spec_net_views(s: Seq<NetRequirement>) -> Seq<NetRequirementView> {
    s.map_values(|n: NetRequirement| n@)
}

impl NetRequirement {
    /// An all-zero bucket for a day.
    pub fn new(date: Date) -> (r: NetRequirement)
        ensures
            r.date == date,
            r.gross_requirement@ == 0,
            r.scheduled_receipt@ == 0,
            r.projected_on_hand@ == 0,
            r.net_requirement@ == 0,
    {
        NetRequirement {
            date,
            gross_requirement: Qty::zero(),
            scheduled_receipt: Qty::zero(),
            projected_on_hand: Qty::zero(),
            net_requirement: Qty::zero(),
        }
    }
}

/// A prefix of the demand views keeps `spec_gross_at` within the total
/// when no quantity is negative.
proof fn lemma_gross_take_le(demands: Seq<DemandView>, t: int, k: int)
    requires
        0 <= k <= demands.len(),
        forall|i: int| 0 <= i < demands.len() ==> demands[i].quantity >= 0,
    ensures
        spec_gross_at(demands.take(k), t) <= spec_gross_at(demands, t),
    decreases demands.len() - k,
{
    if k == demands.len() {
        assert(demands.take(k) =~= demands);
    } else {
        lemma_gross_take_le(demands, t, k + 1);
        assert(demands.take(k + 1).drop_last() =~= demands.take(k));
        assert(demands.take(k + 1).last() == demands[k]);
    }
}

/// A prefix of the supply views keeps `spec_receipt_at` within the
/// total when no quantity is negative.
proof fn lemma_receipt_take_le(supplies: Seq<SupplyView>, t: int, k: int)
    requires
        0 <= k <= supplies.len(),
        forall|i: int| 0 <= i < supplies.len() ==> supplies[i].quantity >= 0,
    ensures
        spec_receipt_at(supplies.take(k), t) <= spec_receipt_at(supplies, t),
    decreases supplies.len() - k,
{
    if k == supplies.len() {
        assert(supplies.take(k) =~= supplies);
    } else {
        lemma_receipt_take_le(supplies, t, k + 1);
        assert(supplies.take(k + 1).drop_last() =~= supplies.take(k));
        assert(supplies.take(k + 1).last() == supplies[k]);
    }
}

/// Sums the demand quantities falling due on `date`; `None` when the
/// sum leaves the quantity representation.
fn gross_for_date(demands: &Vec<Demand>, date: Date) -> (r: Option<Qty>)
    requires
        forall|i: int| 0 <= i < demands@.len() ==> demands@[i].quantity@ >= 0,
    ensures
        match r {
            Some(q) => q@ == spec_gross_at(spec_demand_views(demands@), date@),
            None => !fits_qty(spec_gross_at(spec_demand_views(demands@), date@)),
        },
{
    let ghost dv = spec_demand_views(demands@);
    let mut total = Qty::zero();
    let mut i: usize = 0;
    while i < demands.len()
        invariant
            0 <= i <= demands@.len(),
            dv == spec_demand_views(demands@),
            forall|j: int| 0 <= j < demands@.len() ==> demands@[j].quantity@ >= 0,
            total@ == spec_gross_at(dv.take(i as int), date@),
            total@ >= 0,
        decreases demands@.len() - i,
    {
        proof {
            assert(dv.take(i + 1).drop_last() =~= dv.take(i as int));
            assert(dv.take(i + 1).last() == dv[i as int]);
        }
        if demands[i].required_date.eq_date(&date) {
            match total.checked_add(demands[i].quantity) {
                Some(t) => {
                    total = t;
                },
                None => {
                    proof {
                        lemma_gross_take_le(dv, date@, i + 1);
                    }
                    return None;
                },
            }
        }
        i += 1;
    }
    proof {
        assert(dv.take(demands@.len() as int) =~= dv);
    }
    Some(total)
}

/// Sums the supply quantities arriving on `date`; `None` when the sum
/// leaves the quantity representation.
fn receipt_for_date(supplies: &Vec<Supply>, date: Date) -> (r: Option<Qty>)
    requires
        forall|i: int| 0 <= i < supplies@.len() ==> supplies@[i].quantity@ >= 0,
    ensures
        match r {
            Some(q) => q@ == spec_receipt_at(spec_supply_views(supplies@), date@),
            None => !fits_qty(spec_receipt_at(spec_supply_views(supplies@), date@)),
        },
{
    let ghost sv = spec_supply_views(supplies@);
    let mut total = Qty::zero();
    let mut i: usize = 0;
    while i < supplies.len()
        invariant
            0 <= i <= supplies@.len(),
            sv == spec_supply_views(supplies@),
            forall|j: int| 0 <= j < supplies@.len() ==> supplies@[j].quantity@ >= 0,
            total@ == spec_receipt_at(sv.take(i as int), date@),
            total@ >= 0,
        decreases supplies@.len() - i,
    {
        proof {
            assert(sv.take(i + 1).drop_last() =~= sv.take(i as int));
            assert(sv.take(i + 1).last() == sv[i as int]);
        }
        if supplies[i].available_date.eq_date(&date) {
            match total.checked_add(supplies[i].quantity) {
                Some(t) => {
                    total = t;
                },
                None => {
                    proof {
                        lemma_receipt_take_le(sv, date@, i + 1);
                    }
                    return None;
                },
            }
        }
        i += 1;
    }
    proof {
        assert(sv.take(supplies@.len() as int) =~= sv);
    }
    Some(total)
}

/// Runs netting over a time axis.
pub struct NettingCalculator;

impl NettingCalculator {
    /// Projects on-hand stock and derives net requirements, bucket by
    /// bucket, over `time_buckets` in their given order.  Fails with a
    /// calculation error exactly when some computed value leaves the
    /// quantity representation.
    #[verifier::rlimit(60)]
    pub fn calculate(
        demands: &Vec<Demand>,
        supplies: &Vec<Supply>,
        initial_inventory: Qty,
        safety_stock: Qty,
        time_buckets: &Vec<Date>,
        allow_negative_inventory: bool,
    ) -> (r: Result<Vec<NetRequirement>, MrpError>)
        requires
            forall|i: int| 0 <= i < demands@.len() ==> demands@[i].quantity@ >= 0,
            forall|i: int| 0 <= i < supplies@.len() ==> supplies@[i].quantity@ >= 0,
        ensures
            r is Ok <==> spec_netting_fits(
                spec_demand_views(demands@),
                spec_supply_views(supplies@),
                initial_inventory@,
                safety_stock@,
                spec_day_views(time_buckets@),
                allow_negative_inventory,
            ),
            r matches Ok(nr) ==> {
                let dv = spec_demand_views(demands@);
                let sv = spec_supply_views(supplies@);
                let bv = spec_day_views(time_buckets@);
                &&& nr@.len() == time_buckets@.len()
                &&& forall|i: int|
                    0 <= i < nr@.len() ==> {
                        &&& (#[trigger] nr@[i]).date == time_buckets@[i]
                        &&& nr@[i].gross_requirement@ == spec_gross_at(dv, bv[i])
                        &&& nr@[i].scheduled_receipt@ == spec_receipt_at(sv, bv[i])
                        &&& nr@[i].projected_on_hand@ == spec_poh(
                            dv,
                            sv,
                            initial_inventory@,
                            bv,
                            i,
                        )
                        &&& nr@[i].net_requirement@ == spec_net_req(
                            dv,
                            sv,
                            initial_inventory@,
                            safety_stock@,
                            bv,
                            allow_negative_inventory,
                            i,
                        )
                    }
            },
            r matches Err(e) ==> e is CalculationError,
    {
        let ghost dv = spec_demand_views(demands@);
        let ghost sv = spec_supply_views(supplies@);
        let ghost bv = spec_day_views(time_buckets@);
        let mut results: Vec<NetRequirement> = Vec::new();
        let mut current_inventory = initial_inventory;
        let mut covered = Qty::zero();
        let mut i: usize = 0;
        while i < time_buckets.len()
            invariant
                0 <= i <= time_buckets@.len(),
                dv == spec_demand_views(demands@),
                sv == spec_supply_views(supplies@),
                bv == spec_day_views(time_buckets@),
                forall|j: int| 0 <= j < demands@.len() ==> demands@[j].quantity@ >= 0,
                forall|j: int| 0 <= j < supplies@.len() ==> supplies@[j].quantity@ >= 0,
                current_inventory@ == spec_poh(dv, sv, initial_inventory@, bv, i - 1),
                covered@ == spec_cover(
                    dv,
                    sv,
                    initial_inventory@,
                    safety_stock@,
                    bv,
                    allow_negative_inventory,
                    i - 1,
                ),
                covered@ >= 0,
                results@.len() == i,
                forall|j: int|
                    0 <= j < i ==> {
                        &&& (#[trigger] results@[j]).date == time_buckets@[j]
                        &&& results@[j].gross_requirement@ == spec_gross_at(dv, bv[j])
                        &&& results@[j].scheduled_receipt@ == spec_receipt_at(sv, bv[j])
                        &&& results@[j].projected_on_hand@ == spec_poh(
                            dv,
                            sv,
                            initial_inventory@,
                            bv,
                            j,
                        )
                        &&& results@[j].net_requirement@ == spec_net_req(
                            dv,
                            sv,
                            initial_inventory@,
                            safety_stock@,
                            bv,
                            allow_negative_inventory,
                            j,
                        )
                    },
                forall|j: int|
                    0 <= j < i ==> #[trigger] spec_bucket_fits(
                        dv,
                        sv,
                        initial_inventory@,
                        safety_stock@,
                        bv,
                        allow_negative_inventory,
                        j,
                    ),
            decreases time_buckets@.len() - i,
        {
            let date = time_buckets[i];
            let gross_req = match gross_for_date(demands, date) {
                Some(q) => q,
                None => {
                    proof {
                        let prev = spec_poh(dv, sv, initial_inventory@, bv, i - 1);
                        let rec = spec_receipt_at(sv, bv[i as int]);
                        let gross = spec_gross_at(dv, bv[i as int]);
                        assert(!spec_bucket_fits(
                            dv,
                            sv,
                            initial_inventory@,
                            safety_stock@,
                            bv,
                            allow_negative_inventory,
                            i as int,
                        ));
                        assert(!spec_netting_fits(
                            dv,
                            sv,
                            initial_inventory@,
                            safety_stock@,
                            bv,
                            allow_negative_inventory,
                        ));
                    }
                    return Err(
                        MrpError::CalculationError(
                            String::from_str("gross requirement out of range"),
                        ),
                    );
                },
            };
            let scheduled_receipt = match receipt_for_date(supplies, date) {
                Some(q) => q,
                None => {
                    proof {
                        let prev = spec_poh(dv, sv, initial_inventory@, bv, i - 1);
                        let rec = spec_receipt_at(sv, bv[i as int]);
                        let gross = spec_gross_at(dv, bv[i as int]);
                        assert(!spec_bucket_fits(
                            dv,
                            sv,
                            initial_inventory@,
                            safety_stock@,
                            bv,
                            allow_negative_inventory,
                            i as int,
                        ));
                        assert(!spec_netting_fits(
                            dv,
                            sv,
                            initial_inventory@,
                            safety_stock@,
                            bv,
                            allow_negative_inventory,
                        ));
                    }
                    return Err(
                        MrpError::CalculationError(
                            String::from_str("scheduled receipt out of range"),
                        ),
                    );
                },
            };
            let with_receipt = match current_inventory.checked_add(scheduled_receipt) {
                Some(q) => q,
                None => {
                    proof {
                        let prev = spec_poh(dv, sv, initial_inventory@, bv, i - 1);
                        let rec = spec_receipt_at(sv, bv[i as int]);
                        let gross = spec_gross_at(dv, bv[i as int]);
                        assert(!spec_bucket_fits(
                            dv,
                            sv,
                            initial_inventory@,
                            safety_stock@,
                            bv,
                            allow_negative_inventory,
                            i as int,
                        ));
                        assert(!spec_netting_fits(
                            dv,
                            sv,
                            initial_inventory@,
                            safety_stock@,
                            bv,
                            allow_negative_inventory,
                        ));
                    }
                    return Err(
                        MrpError::CalculationError(
                            String::from_str("projected stock out of range"),
                        ),
                    );
                },
            };
            let projected_on_hand = match with_receipt.checked_sub(gross_req) {
                Some(q) => q,
                None => {
                    proof {
                        let prev = spec_poh(dv, sv, initial_inventory@, bv, i - 1);
                        let rec = spec_receipt_at(sv, bv[i as int]);
                        let gross = spec_gross_at(dv, bv[i as int]);
                        assert(!spec_bucket_fits(
                            dv,
                            sv,
                            initial_inventory@,
                            safety_stock@,
                            bv,
                            allow_negative_inventory,
                            i as int,
                        ));
                        assert(!spec_netting_fits(
                            dv,
                            sv,
                            initial_inventory@,
                            safety_stock@,
                            bv,
                            allow_negative_inventory,
                        ));
                    }
                    return Err(
                        MrpError::CalculationError(
                            String::from_str("projected stock out of range"),
                        ),
                    );
                },
            };
            let net_candidate = if allow_negative_inventory {
                Qty::zero().checked_sub(projected_on_hand)
            } else {
                safety_stock.checked_sub(projected_on_hand)
            };
            let floor_gap = match net_candidate {
                Some(q) => q,
                None => {
                    proof {
                        let prev = spec_poh(dv, sv, initial_inventory@, bv, i - 1);
                        let rec = spec_receipt_at(sv, bv[i as int]);
                        let gross = spec_gross_at(dv, bv[i as int]);
                        assert(!spec_bucket_fits(
                            dv,
                            sv,
                            initial_inventory@,
                            safety_stock@,
                            bv,
                            allow_negative_inventory,
                            i as int,
                        ));
                        assert(!spec_netting_fits(
                            dv,
                            sv,
                            initial_inventory@,
                            safety_stock@,
                            bv,
                            allow_negative_inventory,
                        ));
                    }
                    return Err(
                        MrpError::CalculationError(
                            String::from_str("net requirement out of range"),
                        ),
                    );
                },
            };
            let shortfall = if floor_gap.is_positive() {
                floor_gap
            } else {
                Qty::zero()
            };
            let net_req = if covered.lt(&shortfall) {
                Qty::from_units(shortfall.units() - covered.units())
            } else {
                Qty::zero()
            };
            results.push(
                NetRequirement {
                    date,
                    gross_requirement: gross_req,
                    scheduled_receipt,
                    projected_on_hand,
                    net_requirement: net_req,
                },
            );
            proof {
                assert(bv[i as int] == date@);
                let prev = spec_poh(dv, sv, initial_inventory@, bv, i as int - 1);
                let rec = spec_receipt_at(sv, bv[i as int]);
                let gross = spec_gross_at(dv, bv[i as int]);
                let target = if allow_negative_inventory {
                    0int
                } else {
                    safety_stock@
                };
                assert(fits_qty(gross));
                assert(fits_qty(rec));
                assert(fits_qty(prev + rec));
                assert(fits_qty(prev + rec - gross));
                assert(fits_qty(target - (prev + rec - gross)));
                assert(spec_bucket_fits(
                    dv,
                    sv,
                    initial_inventory@,
                    safety_stock@,
                    bv,
                    allow_negative_inventory,
                    i as int,
                ));
            }
            current_inventory = projected_on_hand;
            if covered.lt(&shortfall) {
                covered = shortfall;
            }
            i += 1;
        }
        Ok(results)
    }
}

} // verus!
