//! Lot sizing: turning net requirements into planned orders.
//!
//! Five policies are supported.  Every policy dates an order by walking
//! the lead time backward over working days from the requirement's day,
//! and normalizes every emitted quantity through the item's quantity
//! constraints.  Each policy is specified by a recursive function over
//! the netting result, so a run's outcome is pinned down exactly.

use vstd::prelude::*;

use crate::calendar::WorkCalendar;
use crate::config::{LotSizingRule, MrpConfig, ProcurementType};
use crate::date::{Date, DAY_MAX, DAY_MIN};
use crate::error::MrpError;
use crate::netting::{spec_net_views, NetRequirement, NetRequirementView};
use crate::plan::{PlannedOrder, PlannedOrderType};
use crate::qty::{fits_qty, Qty};

verus! {

broadcast use crate::qty::lemma_qty_fits;

/// An order as a lot-sizing rule determines it: quantity and dates.
/// The item, order type and bookkeeping fields are uniform over a run.
pub struct LotOrder {
    pub quantity: int,
    pub required_date: int,
    pub order_date: int,
}

/// Why a lot-sizing run fails.
pub enum LotError {
    /// A fixed-lot policy has no usable lot size.
    MissingLot,
    /// An order date would leave the supported date range.
    DateRange,
    /// A computed quantity would leave the representable range.
    QtyRange,
}

/// The order type an item's procurement maps to.
pub open spec fn spec_order_type(p: ProcurementType) -> PlannedOrderType {
    match p {
        ProcurementType::Buy => PlannedOrderType::Purchase,
        ProcurementType::Make => PlannedOrderType::Production,
        ProcurementType::Transfer => PlannedOrderType::Transfer,
    }
}

/// Whether `orders` realises the determined orders `los` for the given
/// item and order type, with fresh bookkeeping fields.
pub open spec fn spec_orders_match(
    orders: Seq<PlannedOrder>,
    los: Seq<LotOrder>,
    component_id: Seq<char>,
    otype: PlannedOrderType,
) -> bool {
    &&& orders.len() == los.len()
    &&& forall|k: int|
        0 <= k < orders.len() ==> {
            let o = #[trigger] orders[k];
            &&& o.id == 0
            &&& o.component_id@ == component_id
            &&& o.quantity@ == los[k].quantity
            &&& o.required_date@ == los[k].required_date
            &&& o.order_date@ == los[k].order_date
            &&& o.order_type == otype
            &&& o.source_id is None
            &&& o.pegging@.len() == 0
        }
}

/// Whether the reported error realises the determined failure kind.
pub open spec fn spec_lot_err_matches(e: LotError, me: MrpError) -> bool {
    match e {
        LotError::MissingLot => me is MissingLotSize,
        LotError::DateRange => me is InvalidDate,
        LotError::QtyRange => me is CalculationError,
    }
}

/// The order date for a requirement day: the lead time walked backward
/// over working days; a day outside the supported range fails.
pub open spec fn spec_order_date(cal: WorkCalendar, d: int, lead: int) -> Option<int> {
    if !(DAY_MIN <= d <= DAY_MAX) {
        None
    } else {
        cal.spec_try_sub_working(d, lead)
    }
}

/// Lot-for-lot orders from bucket `i` on: one order per bucket with a
/// positive net requirement, of the normalized requirement.
pub open spec fn spec_lot_for_lot_from(
    nets: Seq<NetRequirementView>,
    cfg: MrpConfig,
    cal: WorkCalendar,
    i: int,
) -> Result<Seq<LotOrder>, LotError>
    decreases nets.len() - i,
{
    if i < 0 || i >= nets.len() {
        Ok(Seq::empty())
    } else if nets[i].net_requirement > 0 {
        match spec_order_date(cal, nets[i].date, cfg.lead_time_days as int) {
            None => Err(LotError::DateRange),
            Some(od) => if !cfg.spec_adjust_fits(nets[i].net_requirement) {
                Err(LotError::QtyRange)
            } else {
                let order = LotOrder {
                    quantity: cfg.spec_adjust(nets[i].net_requirement),
                    required_date: nets[i].date,
                    order_date: od,
                };
                match spec_lot_for_lot_from(nets, cfg, cal, i + 1) {
                    Err(e) => Err(e),
                    Ok(rest) => Ok(seq![order] + rest),
                }
            },
        }
    } else {
        spec_lot_for_lot_from(nets, cfg, cal, i + 1)
    }
}

/// Fixed-lot orders from bucket `i` on, with running inventory `r`:
/// whenever the running inventory falls below the safety floor, order
/// enough whole lots to lift it back, normalized.
pub open spec fn spec_fixed_lot_from(
    nets: Seq<NetRequirementView>,
    lot: int,
    cfg: MrpConfig,
    cal: WorkCalendar,
    i: int,
    r: int,
) -> Result<Seq<LotOrder>, LotError>
    decreases nets.len() - i,
{
    if i < 0 || i >= nets.len() {
        Ok(Seq::empty())
    } else if !fits_qty(r - nets[i].gross_requirement) {
        Err(LotError::QtyRange)
    } else if !fits_qty(r - nets[i].gross_requirement + nets[i].scheduled_receipt) {
        Err(LotError::QtyRange)
    } else {
        let r2 = r - nets[i].gross_requirement + nets[i].scheduled_receipt;
        if r2 < cfg.safety_stock@ {
            if lot <= 0 {
                Err(LotError::QtyRange)
            } else {
                let shortage = cfg.safety_stock@ - r2;
                let batches = (shortage + lot - 1) / lot;
                let oq = batches * lot;
                if !fits_qty(oq) {
                    Err(LotError::QtyRange)
                } else if !cfg.spec_adjust_fits(oq) {
                    Err(LotError::QtyRange)
                } else {
                    let adj = cfg.spec_adjust(oq);
                    match spec_order_date(cal, nets[i].date, cfg.lead_time_days as int) {
                        None => Err(LotError::DateRange),
                        Some(od) => if !fits_qty(r2 + adj) {
                            Err(LotError::QtyRange)
                        } else {
                            let order = LotOrder {
                                quantity: adj,
                                required_date: nets[i].date,
                                order_date: od,
                            };
                            match spec_fixed_lot_from(nets, lot, cfg, cal, i + 1, r2 + adj) {
                                Err(e) => Err(e),
                                Ok(rest) => Ok(seq![order] + rest),
                            }
                        },
                    }
                }
            }
        } else {
            spec_fixed_lot_from(nets, lot, cfg, cal, i + 1, r2)
        }
    }
}

/// The sum of the net requirements from bucket `i` on, added in order;
/// fails where a partial sum leaves the representable range.
pub open spec fn spec_sum_net_from(nets: Seq<NetRequirementView>, i: int, acc: int) -> Result<
    int,
    LotError,
>
    decreases nets.len() - i,
{
    if i < 0 || i >= nets.len() {
        Ok(acc)
    } else if !fits_qty(acc + nets[i].net_requirement) {
        Err(LotError::QtyRange)
    } else {
        spec_sum_net_from(nets, i + 1, acc + nets[i].net_requirement)
    }
}

/// The integer square root: the largest `r` with `r * r <= n`.
pub open spec fn spec_isqrt(n: int) -> int {
    choose|r: int| 0 <= r && #[trigger] (r * r) <= n && n < (r + 1) * (r + 1)
}

/// The economically derived lot for a total requirement: ten times the
/// square root of the whole-unit total, at least one whole unit; a
/// default lot of one hundred units where there is nothing to cover.
pub open spec fn spec_eoq_lot(total: int) -> int {
    if total > 0 {
        let raw = 1000 * spec_isqrt(total);
        if raw < 10000 {
            10000
        } else {
            raw
        }
    } else {
        1_000_000
    }
}

/// The first bucket at or past `start` whose date lies seven or more
/// days past the window-start date; the window covers up to there.
pub open spec fn spec_window_end(nets: Seq<NetRequirementView>, start: int, j: int) -> int
    decreases nets.len() - j,
{
    if j < 0 || j >= nets.len() {
        nets.len() as int
    } else if nets[j].date - nets[start].date >= 7 {
        j
    } else {
        spec_window_end(nets, start, j + 1)
    }
}

/// The sum of the net requirements of buckets `[i, end)`, added in
/// order; fails where a partial sum leaves the representable range.
pub open spec fn spec_sum_net_window(
    nets: Seq<NetRequirementView>,
    i: int,
    end: int,
    acc: int,
) -> Result<int, LotError>
    decreases end - i,
{
    if i >= end || i < 0 {
        Ok(acc)
    } else if !fits_qty(acc + nets[i].net_requirement) {
        Err(LotError::QtyRange)
    } else {
        spec_sum_net_window(nets, i + 1, end, acc + nets[i].net_requirement)
    }
}

/// A window never ends before the scan position nor past the axis.
pub proof fn lemma_window_end_bounds(nets: Seq<NetRequirementView>, start: int, j: int)
    requires
        0 <= j <= nets.len(),
    ensures
        j <= spec_window_end(nets, start, j) <= nets.len(),
    decreases nets.len() - j,
{
    if j < nets.len() && !(nets[j].date - nets[start].date >= 7) {
        lemma_window_end_bounds(nets, start, j + 1);
    }
}

/// Period orders from window start `i` on: successive buckets within
/// seven days of the window start form one window; a window with a
/// positive total yields one normalized order dated at its first bucket.
pub open spec fn spec_period_from(
    nets: Seq<NetRequirementView>,
    cfg: MrpConfig,
    cal: WorkCalendar,
    i: int,
) -> Result<Seq<LotOrder>, LotError>
    decreases nets.len() - i,
    via spec_period_from_decreases
{
    if i < 0 || i >= nets.len() {
        Ok(Seq::empty())
    } else {
        let end = spec_window_end(nets, i, i + 1);
        match spec_sum_net_window(nets, i, end, 0) {
            Err(e) => Err(e),
            Ok(total) => if total > 0 {
                if !cfg.spec_adjust_fits(total) {
                    Err(LotError::QtyRange)
                } else {
                    let adj = cfg.spec_adjust(total);
                    match spec_order_date(cal, nets[i].date, cfg.lead_time_days as int) {
                        None => Err(LotError::DateRange),
                        Some(od) => {
                            let order = LotOrder {
                                quantity: adj,
                                required_date: nets[i].date,
                                order_date: od,
                            };
                            match spec_period_from(nets, cfg, cal, end) {
                                Err(e) => Err(e),
                                Ok(rest) => Ok(seq![order] + rest),
                            }
                        },
                    }
                }
            } else {
                spec_period_from(nets, cfg, cal, end)
            },
        }
    }
}

#[via_fn]
proof fn spec_period_from_decreases(
    nets: Seq<NetRequirementView>,
    cfg: MrpConfig,
    cal: WorkCalendar,
    i: int,
) {
    if 0 <= i < nets.len() {
        lemma_window_end_bounds(nets, i, i + 1);
    }
}

/// Min-max orders from bucket `i` on, with running inventory `r`:
/// whenever the running inventory falls below the minimum level, order
/// the normalized difference up to the maximum level.
pub open spec fn spec_min_max_from(
    nets: Seq<NetRequirementView>,
    min_level: int,
    max_level: int,
    cfg: MrpConfig,
    cal: WorkCalendar,
    i: int,
    r: int,
) -> Result<Seq<LotOrder>, LotError>
    decreases nets.len() - i,
{
    if i < 0 || i >= nets.len() {
        Ok(Seq::empty())
    } else if !fits_qty(r - nets[i].gross_requirement) {
        Err(LotError::QtyRange)
    } else if !fits_qty(r - nets[i].gross_requirement + nets[i].scheduled_receipt) {
        Err(LotError::QtyRange)
    } else {
        let r2 = r - nets[i].gross_requirement + nets[i].scheduled_receipt;
        if r2 < min_level {
            if !fits_qty(max_level - r2) {
                Err(LotError::QtyRange)
            } else {
                let oq = max_level - r2;
                if !cfg.spec_adjust_fits(oq) {
                    Err(LotError::QtyRange)
                } else {
                    let adj = cfg.spec_adjust(oq);
                    match spec_order_date(cal, nets[i].date, cfg.lead_time_days as int) {
                        None => Err(LotError::DateRange),
                        Some(od) => if !fits_qty(r2 + adj) {
                            Err(LotError::QtyRange)
                        } else {
                            let order = LotOrder {
                                quantity: adj,
                                required_date: nets[i].date,
                                order_date: od,
                            };
                            match spec_min_max_from(
                                nets,
                                min_level,
                                max_level,
                                cfg,
                                cal,
                                i + 1,
                                r2 + adj,
                            ) {
                                Err(e) => Err(e),
                                Ok(rest) => Ok(seq![order] + rest),
                            }
                        },
                    }
                }
            }
        } else {
            spec_min_max_from(nets, min_level, max_level, cfg, cal, i + 1, r2)
        }
    }
}

/// The whole outcome of economic-order-quantity lot sizing.
pub open spec fn spec_eoq_outcome(
    nets: Seq<NetRequirementView>,
    cfg: MrpConfig,
    cal: WorkCalendar,
) -> Result<Seq<LotOrder>, LotError> {
    match cfg.fixed_lot_size {
        Some(lot) => spec_fixed_lot_from(nets, lot@, cfg, cal, 0, 0),
        None => match spec_sum_net_from(nets, 0, 0) {
            Err(e) => Err(e),
            Ok(total) => spec_fixed_lot_from(nets, spec_eoq_lot(total), cfg, cal, 0, 0),
        },
    }
}

/// The whole outcome of min-max lot sizing.
pub open spec fn spec_min_max_outcome(
    nets: Seq<NetRequirementView>,
    cfg: MrpConfig,
    cal: WorkCalendar,
) -> Result<Seq<LotOrder>, LotError> {
    let min_level = match cfg.minimum_order_qty {
        Some(q) => q@,
        None => cfg.safety_stock@,
    };
    match cfg.maximum_order_qty {
        Some(q) => spec_min_max_from(nets, min_level, q@, cfg, cal, 0, 0),
        None => if !fits_qty(2 * min_level) {
            Err(LotError::QtyRange)
        } else {
            spec_min_max_from(nets, min_level, 2 * min_level, cfg, cal, 0, 0)
        },
    }
}

/// The whole outcome of lot sizing under a configuration's policy.
pub open spec fn spec_apply_lot_sizing(
    nets: Seq<NetRequirementView>,
    cfg: MrpConfig,
    cal: WorkCalendar,
) -> Result<Seq<LotOrder>, LotError> {
    match cfg.lot_sizing_rule {
        LotSizingRule::LotForLot => spec_lot_for_lot_from(nets, cfg, cal, 0),
        LotSizingRule::FixedOrderQuantity => match cfg.fixed_lot_size {
            None => Err(LotError::MissingLot),
            Some(lot) => spec_fixed_lot_from(nets, lot@, cfg, cal, 0, 0),
        },
        LotSizingRule::EconomicOrderQuantity => spec_eoq_outcome(nets, cfg, cal),
        LotSizingRule::PeriodOrderQuantity => spec_period_from(nets, cfg, cal, 0),
        LotSizingRule::MinMax => spec_min_max_outcome(nets, cfg, cal),
    }
}

/// Two integer square roots of the same number agree.
proof fn lemma_isqrt_unique(n: int, a: int, b: int)
    requires
        0 <= a && a * a <= n < (a + 1) * (a + 1),
        0 <= b && b * b <= n < (b + 1) * (b + 1),
    ensures
        a == b,
{
    if a < b {
        assert((a + 1) * (a + 1) <= b * b) by (nonlinear_arith)
            requires
                0 <= a,
                0 <= b,
                a < b,
        {
        }
    }
    if b < a {
        assert((b + 1) * (b + 1) <= a * a) by (nonlinear_arith)
            requires
                0 <= a,
                0 <= b,
                b < a,
        {
        }
    }
}

/// The integer square root of a non-negative `n`.
fn isqrt_i64(n: i64) -> (r: i64)
    requires
        n >= 0,
    ensures
        r as int == spec_isqrt(n as int),
        0 <= r <= 3_037_000_500,
        (r as int) * (r as int) <= n as int,
        (n as int) < (r as int + 1) * (r as int + 1),
{
    let mut lo: i64 = 0;
    let mut hi: i64 = 3_037_000_500;
    proof {
        assert((3_037_000_500int) * (3_037_000_500int) > i64::MAX);
    }
    while lo + 1 < hi
        invariant
            0 <= lo < hi <= 3_037_000_500,
            (lo as int) * (lo as int) <= n as int,
            (n as int) < (hi as int) * (hi as int),
            n >= 0,
        decreases hi - lo,
    {
        let mid: i64 = lo + (hi - lo) / 2;
        proof {
            assert(lo <= mid < hi);
            assert((mid as int) * (mid as int) <= 3_037_000_500int * 3_037_000_500int)
                by (nonlinear_arith)
                requires
                    0 <= mid as int <= 3_037_000_500int,
            {
            }
        }
        let sq: i128 = (mid as i128) * (mid as i128);
        if sq <= n as i128 {
            lo = mid;
        } else {
            hi = mid;
        }
    }
    proof {
        let w = lo as int;
        assert(0 <= w && w * w <= n as int && (n as int) < (w + 1) * (w + 1));
        let c = spec_isqrt(n as int);
        assert(0 <= c && c * c <= n as int && (n as int) < (c + 1) * (c + 1));
        lemma_isqrt_unique(n as int, w, c);
    }
    lo
}


/// The determined orders of a realised order sequence.
pub open spec fn spec_lots_of(orders: Seq<PlannedOrder>) -> Seq<LotOrder> {
    orders.map_values(
        |o: PlannedOrder|
            LotOrder {
                quantity: o.quantity@,
                required_date: o.required_date@,
                order_date: o.order_date@,
            },
    )
}

/// Walks the lead time backward from a requirement day; `None` when the
/// supported date range runs out.
fn compute_order_date(calendar: &WorkCalendar, date: Date, lead: u32) -> (r: Option<Date>)
    ensures
        match r {
            Some(d) => spec_order_date(*calendar, date@, lead as int) == Some(d@),
            None => spec_order_date(*calendar, date@, lead as int) is None,
        },
{
    if date.days() < DAY_MIN || date.days() > DAY_MAX {
        None
    } else {
        calendar.try_subtract_working_days(date, lead)
    }
}

/// Normalizes a quantity under the configuration; `None` when the
/// normalization would leave the representable range.
fn checked_adjust(config: &MrpConfig, q: Qty) -> (r: Option<Qty>)
    ensures
        match r {
            Some(a) => config.spec_adjust_fits(q@) && a@ == config.spec_adjust(q@),
            None => !config.spec_adjust_fits(q@),
        },
{
    let q1 = match config.minimum_order_qty {
        Some(m) => if q.lt(&m) {
            m
        } else {
            q
        },
        None => q,
    };
    match config.order_multiple {
        Some(m) => match q1.checked_add(m) {
            Some(_) => Some(config.adjust_order_quantity(q)),
            None => None,
        },
        None => Some(config.adjust_order_quantity(q)),
    }
}

/// Applies the lot-sizing policies.
pub struct LotSizingCalculator;

impl LotSizingCalculator {
    /// The order type an item's procurement maps to.
    pub fn determine_order_type(procurement_type: ProcurementType) -> (r: PlannedOrderType)
        ensures
            r == spec_order_type(procurement_type),
    {
        match procurement_type {
            ProcurementType::Buy => PlannedOrderType::Purchase,
            ProcurementType::Make => PlannedOrderType::Production,
            ProcurementType::Transfer => PlannedOrderType::Transfer,
        }
    }

    /// One order per bucket with a positive net requirement, of exactly
    /// the normalized requirement.
    pub fn lot_for_lot(
        component_id: &str,
        net_requirements: &Vec<NetRequirement>,
        config: &MrpConfig,
        calendar: &WorkCalendar,
    ) -> (r: Result<Vec<PlannedOrder>, MrpError>)
        ensures
            match spec_lot_for_lot_from(spec_net_views(net_requirements@), *config, *calendar, 0) {
                Ok(los) => r matches Ok(orders) && spec_orders_match(
                    orders@,
                    los,
                    component_id@,
                    spec_order_type(config.procurement_type),
                ),
                Err(e) => r matches Err(me) && spec_lot_err_matches(e, me),
            },
    {
        let ghost nv = spec_net_views(net_requirements@);
        let ghost full = spec_lot_for_lot_from(nv, *config, *calendar, 0);
        let otype = Self::determine_order_type(config.procurement_type);
        let mut orders: Vec<PlannedOrder> = Vec::new();
        let mut i: usize = 0;
        while i < net_requirements.len()
            invariant
                0 <= i <= net_requirements@.len(),
                nv == spec_net_views(net_requirements@),
                full == spec_lot_for_lot_from(nv, *config, *calendar, 0),
                otype == spec_order_type(config.procurement_type),
                forall|k: int|
                    0 <= k < orders@.len() ==> {
                        let o = #[trigger] orders@[k];
                        o.id == 0 && o.component_id@ == component_id@ && o.order_type == otype
                            && o.source_id is None && o.pegging@.len() == 0
                    },
                match spec_lot_for_lot_from(nv, *config, *calendar, i as int) {
                    Ok(rest) => full matches Ok(flos) && flos == spec_lots_of(orders@) + rest,
                    Err(e) => full == Err::<Seq<LotOrder>, LotError>(e),
                },
            decreases net_requirements@.len() - i,
        {
            proof {
                assert(nv[i as int] == net_requirements@[i as int]@);
            }
            let n = net_requirements[i];
            if n.net_requirement.is_positive() {
                let od = match compute_order_date(calendar, n.date, config.lead_time_days) {
                    Some(d) => d,
                    None => {
                        return Err(
                            MrpError::InvalidDate(String::from_str("order date out of range")),
                        );
                    },
                };
                let adj = match checked_adjust(config, n.net_requirement) {
                    Some(a) => a,
                    None => {
                        return Err(
                            MrpError::CalculationError(
                                String::from_str("order quantity out of range"),
                            ),
                        );
                    },
                };
                let order = PlannedOrder::new(String::from_str(component_id), adj, n.date, od, otype);
                proof {
                    let lo = LotOrder {
                        quantity: adj@,
                        required_date: n.date@,
                        order_date: od@,
                    };
                    assert(spec_lots_of(orders@.push(order)) =~= spec_lots_of(orders@).push(lo));
                    if spec_lot_for_lot_from(nv, *config, *calendar, i + 1) is Ok {
                        let rest = spec_lot_for_lot_from(nv, *config, *calendar, i + 1)->Ok_0;
                        assert(spec_lots_of(orders@) + (seq![lo] + rest) =~= spec_lots_of(
                            orders@,
                        ).push(lo) + rest);
                    }
                }
                orders.push(order);
            }
            i += 1;
        }
        proof {
            assert(spec_lots_of(orders@) + Seq::<LotOrder>::empty() =~= spec_lots_of(orders@));
        }
        Ok(orders)
    }

    /// Fixed-lot ordering with a given lot: whenever the running
    /// inventory falls below the safety floor, order enough whole lots
    /// to lift it back, normalized.
    fn fixed_lot_core(
        component_id: &str,
        net_requirements: &Vec<NetRequirement>,
        lot: Qty,
        config: &MrpConfig,
        calendar: &WorkCalendar,
    ) -> (r: Result<Vec<PlannedOrder>, MrpError>)
        ensures
            match spec_fixed_lot_from(
                spec_net_views(net_requirements@),
                lot@,
                *config,
                *calendar,
                0,
                0,
            ) {
                Ok(los) => r matches Ok(orders) && spec_orders_match(
                    orders@,
                    los,
                    component_id@,
                    spec_order_type(config.procurement_type),
                ),
                Err(e) => r matches Err(me) && spec_lot_err_matches(e, me),
            },
    {
        let ghost nv = spec_net_views(net_requirements@);
        let ghost full = spec_fixed_lot_from(nv, lot@, *config, *calendar, 0, 0);
        let otype = Self::determine_order_type(config.procurement_type);
        let mut orders: Vec<PlannedOrder> = Vec::new();
        let mut run = Qty::zero();
        let mut i: usize = 0;
        while i < net_requirements.len()
            invariant
                0 <= i <= net_requirements@.len(),
                nv == spec_net_views(net_requirements@),
                full == spec_fixed_lot_from(nv, lot@, *config, *calendar, 0, 0),
                otype == spec_order_type(config.procurement_type),
                forall|k: int|
                    0 <= k < orders@.len() ==> {
                        let o = #[trigger] orders@[k];
                        o.id == 0 && o.component_id@ == component_id@ && o.order_type == otype
                            && o.source_id is None && o.pegging@.len() == 0
                    },
                match spec_fixed_lot_from(nv, lot@, *config, *calendar, i as int, run@) {
                    Ok(rest) => full matches Ok(flos) && flos == spec_lots_of(orders@) + rest,
                    Err(e) => full == Err::<Seq<LotOrder>, LotError>(e),
                },
            decreases net_requirements@.len() - i,
        {
            proof {
                assert(nv[i as int] == net_requirements@[i as int]@);
            }
            let n = net_requirements[i];
            let r1 = match run.checked_sub(n.gross_requirement) {
                Some(x) => x,
                None => {
                    return Err(
                        MrpError::CalculationError(
                            String::from_str("running inventory out of range"),
                        ),
                    );
                },
            };
            let r2 = match r1.checked_add(n.scheduled_receipt) {
                Some(x) => x,
                None => {
                    return Err(
                        MrpError::CalculationError(
                            String::from_str("running inventory out of range"),
                        ),
                    );
                },
            };
            if r2.lt(&config.safety_stock) {
                if !lot.is_positive() {
                    return Err(
                        MrpError::CalculationError(String::from_str("lot size not positive")),
                    );
                }
                let shortage: i128 = (config.safety_stock.units() as i128) - (r2.units() as i128);
                let lot_units: i128 = lot.units() as i128;
                let x: i128 = shortage + lot_units - 1;
                let batches: i128 = x / lot_units;
                proof {
                    let xi = x as int;
                    let li = lot_units as int;
                    vstd::arithmetic::div_mod::lemma_fundamental_div_mod(xi, li);
                    vstd::arithmetic::div_mod::lemma_mod_bound(xi, li);
                    vstd::arithmetic::div_mod::lemma_div_by_self(li);
                    vstd::arithmetic::div_mod::lemma_div_is_ordered(li, xi, li);
                    assert(batches as int == xi / li);
                    assert(batches >= 1);
                    assert(li * (xi / li) <= xi);
                    assert((batches as int) * li <= xi) by (nonlinear_arith)
                        requires
                            batches as int == xi / li,
                            li * (xi / li) <= xi,
                    {
                    }
                }
                let oq: i128 = batches * lot_units;
                if oq > (i64::MAX as i128) {
                    return Err(
                        MrpError::CalculationError(String::from_str("order quantity out of range")),
                    );
                }
                proof {
                    assert(oq >= lot_units) by (nonlinear_arith)
                        requires
                            batches >= 1,
                            lot_units >= 1,
                            oq == batches * lot_units,
                    {
                    }
                }
                let oq64 = Qty::from_units(oq as i64);
                let adj = match checked_adjust(config, oq64) {
                    Some(a) => a,
                    None => {
                        return Err(
                            MrpError::CalculationError(
                                String::from_str("order quantity out of range"),
                            ),
                        );
                    },
                };
                let od = match compute_order_date(calendar, n.date, config.lead_time_days) {
                    Some(d) => d,
                    None => {
                        return Err(
                            MrpError::InvalidDate(String::from_str("order date out of range")),
                        );
                    },
                };
                let r3 = match r2.checked_add(adj) {
                    Some(x) => x,
                    None => {
                        return Err(
                            MrpError::CalculationError(
                                String::from_str("running inventory out of range"),
                            ),
                        );
                    },
                };
                let order = PlannedOrder::new(
                    String::from_str(component_id),
                    adj,
                    n.date,
                    od,
                    otype,
                );
                proof {
                    let lo = LotOrder {
                        quantity: adj@,
                        required_date: n.date@,
                        order_date: od@,
                    };
                    assert(spec_lots_of(orders@.push(order)) =~= spec_lots_of(orders@).push(lo));
                    if spec_fixed_lot_from(nv, lot@, *config, *calendar, i + 1, r3@) is Ok {
                        let rest = spec_fixed_lot_from(nv, lot@, *config, *calendar, i + 1, r3@)->Ok_0;
                        assert(spec_lots_of(orders@) + (seq![lo] + rest) =~= spec_lots_of(
                            orders@,
                        ).push(lo) + rest);
                    }
                }
                orders.push(order);
                run = r3;
            } else {
                run = r2;
            }
            i += 1;
        }
        proof {
            assert(spec_lots_of(orders@) + Seq::<LotOrder>::empty() =~= spec_lots_of(orders@));
        }
        Ok(orders)
    }

    /// Fixed-order-quantity ordering; fails when no fixed lot size is
    /// configured.
    pub fn fixed_order_quantity(
        component_id: &str,
        net_requirements: &Vec<NetRequirement>,
        config: &MrpConfig,
        calendar: &WorkCalendar,
    ) -> (r: Result<Vec<PlannedOrder>, MrpError>)
        ensures
            config.fixed_lot_size is None ==> (r matches Err(me) && me is MissingLotSize),
            config.fixed_lot_size matches Some(lot) ==> match spec_fixed_lot_from(
                spec_net_views(net_requirements@),
                lot@,
                *config,
                *calendar,
                0,
                0,
            ) {
                Ok(los) => r matches Ok(orders) && spec_orders_match(
                    orders@,
                    los,
                    component_id@,
                    spec_order_type(config.procurement_type),
                ),
                Err(e) => r matches Err(me) && spec_lot_err_matches(e, me),
            },
    {
        let lot = match config.fixed_lot_size {
            Some(l) => l,
            None => {
                return Err(MrpError::MissingLotSize);
            },
        };
        Self::fixed_lot_core(component_id, net_requirements, lot, config, calendar)
    }

    /// Economic-order-quantity ordering: the configured fixed lot where
    /// present, else a lot derived from the total net requirement, then
    /// fixed-lot behaviour with that lot.
    pub fn economic_order_quantity(
        component_id: &str,
        net_requirements: &Vec<NetRequirement>,
        config: &MrpConfig,
        calendar: &WorkCalendar,
    ) -> (r: Result<Vec<PlannedOrder>, MrpError>)
        ensures
            match spec_eoq_outcome(spec_net_views(net_requirements@), *config, *calendar) {
                Ok(los) => r matches Ok(orders) && spec_orders_match(
                    orders@,
                    los,
                    component_id@,
                    spec_order_type(config.procurement_type),
                ),
                Err(e) => r matches Err(me) && spec_lot_err_matches(e, me),
            },
    {
        let ghost nv = spec_net_views(net_requirements@);
        let lot: Qty = match config.fixed_lot_size {
            Some(l) => l,
            None => {
                let mut total = Qty::zero();
                let mut i: usize = 0;
                while i < net_requirements.len()
                    invariant
                        0 <= i <= net_requirements@.len(),
                        nv == spec_net_views(net_requirements@),
                        config.fixed_lot_size is None,
                        spec_sum_net_from(nv, 0, 0) == spec_sum_net_from(nv, i as int, total@),
                    decreases net_requirements@.len() - i,
                {
                    proof {
                        assert(nv[i as int] == net_requirements@[i as int]@);
                    }
                    total =
                    match total.checked_add(net_requirements[i].net_requirement) {
                        Some(t) => t,
                        None => {
                            return Err(
                                MrpError::CalculationError(
                                    String::from_str("total requirement out of range"),
                                ),
                            );
                        },
                    };
                    i += 1;
                }
                if total.is_positive() {
                    let root = isqrt_i64(total.units());
                    let raw: i64 = 1000 * root;
                    if raw < 10000 {
                        Qty::from_units(10000)
                    } else {
                        Qty::from_units(raw)
                    }
                } else {
                    Qty::from_units(1_000_000)
                }
            },
        };
        Self::fixed_lot_core(component_id, net_requirements, lot, config, calendar)
    }

    /// Period-order-quantity ordering: one normalized order per window
    /// of successive buckets within seven days of the window start.
    pub fn period_order_quantity(
        component_id: &str,
        net_requirements: &Vec<NetRequirement>,
        config: &MrpConfig,
        calendar: &WorkCalendar,
    ) -> (r: Result<Vec<PlannedOrder>, MrpError>)
        ensures
            match spec_period_from(spec_net_views(net_requirements@), *config, *calendar, 0) {
                Ok(los) => r matches Ok(orders) && spec_orders_match(
                    orders@,
                    los,
                    component_id@,
                    spec_order_type(config.procurement_type),
                ),
                Err(e) => r matches Err(me) && spec_lot_err_matches(e, me),
            },
    {
        let ghost nv = spec_net_views(net_requirements@);
        let ghost full = spec_period_from(nv, *config, *calendar, 0);
        let otype = Self::determine_order_type(config.procurement_type);
        let mut orders: Vec<PlannedOrder> = Vec::new();
        let mut start: usize = 0;
        while start < net_requirements.len()
            invariant
                0 <= start <= net_requirements@.len(),
                nv == spec_net_views(net_requirements@),
                full == spec_period_from(nv, *config, *calendar, 0),
                otype == spec_order_type(config.procurement_type),
                forall|k: int|
                    0 <= k < orders@.len() ==> {
                        let o = #[trigger] orders@[k];
                        o.id == 0 && o.component_id@ == component_id@ && o.order_type == otype
                            && o.source_id is None && o.pegging@.len() == 0
                    },
                match spec_period_from(nv, *config, *calendar, start as int) {
                    Ok(rest) => full matches Ok(flos) && flos == spec_lots_of(orders@) + rest,
                    Err(e) => full == Err::<Seq<LotOrder>, LotError>(e),
                },
            decreases net_requirements@.len() - start,
        {
            proof {
                assert(nv[start as int] == net_requirements@[start as int]@);
            }
            let start_date = net_requirements[start].date;
            let mut j: usize = start + 1;
            while j < net_requirements.len()
                invariant
                    start < j <= net_requirements@.len(),
                    nv == spec_net_views(net_requirements@),
                    start < net_requirements@.len(),
                    start_date == net_requirements@[start as int].date,
                    spec_window_end(nv, start as int, start as int + 1) == spec_window_end(
                        nv,
                        start as int,
                        j as int,
                    ),
                ensures
                    start < j <= net_requirements@.len(),
                    spec_window_end(nv, start as int, start as int + 1) == j as int,
                decreases net_requirements@.len() - j,
            {
                proof {
                    assert(nv[j as int] == net_requirements@[j as int]@);
                }
                let diff: i128 = (net_requirements[j].date.days() as i128) - (
                start_date.days() as i128);
                if diff >= 7 {
                    break ;
                }
                j += 1;
            }
            let end = j;
            let mut total = Qty::zero();
            let mut k: usize = start;
            while k < end
                invariant
                    start <= k <= end <= net_requirements@.len(),
                    start < net_requirements@.len(),
                    nv == spec_net_views(net_requirements@),
                    full == spec_period_from(nv, *config, *calendar, 0),
                    end as int == spec_window_end(nv, start as int, start as int + 1),
                    match spec_period_from(nv, *config, *calendar, start as int) {
                        Ok(rest) => full matches Ok(flos) && flos == spec_lots_of(orders@) + rest,
                        Err(e) => full == Err::<Seq<LotOrder>, LotError>(e),
                    },
                    spec_sum_net_window(nv, start as int, end as int, 0) == spec_sum_net_window(
                        nv,
                        k as int,
                        end as int,
                        total@,
                    ),
                decreases end - k,
            {
                proof {
                    assert(nv[k as int] == net_requirements@[k as int]@);
                }
                total =
                match total.checked_add(net_requirements[k].net_requirement) {
                    Some(t) => t,
                    None => {
                        return Err(
                            MrpError::CalculationError(
                                String::from_str("period requirement out of range"),
                            ),
                        );
                    },
                };
                k += 1;
            }
            if total.is_positive() {
                let adj = match checked_adjust(config, total) {
                    Some(a) => a,
                    None => {
                        return Err(
                            MrpError::CalculationError(
                                String::from_str("order quantity out of range"),
                            ),
                        );
                    },
                };
                let od = match compute_order_date(calendar, start_date, config.lead_time_days) {
                    Some(d) => d,
                    None => {
                        return Err(
                            MrpError::InvalidDate(String::from_str("order date out of range")),
                        );
                    },
                };
                let order = PlannedOrder::new(
                    String::from_str(component_id),
                    adj,
                    start_date,
                    od,
                    otype,
                );
                proof {
                    let lo = LotOrder {
                        quantity: adj@,
                        required_date: start_date@,
                        order_date: od@,
                    };
                    assert(spec_lots_of(orders@.push(order)) =~= spec_lots_of(orders@).push(lo));
                    if spec_period_from(nv, *config, *calendar, end as int) is Ok {
                        let rest = spec_period_from(nv, *config, *calendar, end as int)->Ok_0;
                        assert(spec_lots_of(orders@) + (seq![lo] + rest) =~= spec_lots_of(
                            orders@,
                        ).push(lo) + rest);
                    }
                }
                orders.push(order);
            }
            start = end;
        }
        proof {
            assert(spec_lots_of(orders@) + Seq::<LotOrder>::empty() =~= spec_lots_of(orders@));
        }
        Ok(orders)
    }

    /// Min-max ordering: whenever the running inventory falls below the
    /// minimum level, order the normalized difference up to the maximum.
    pub fn min_max(
        component_id: &str,
        net_requirements: &Vec<NetRequirement>,
        config: &MrpConfig,
        calendar: &WorkCalendar,
    ) -> (r: Result<Vec<PlannedOrder>, MrpError>)
        ensures
            match spec_min_max_outcome(spec_net_views(net_requirements@), *config, *calendar) {
                Ok(los) => r matches Ok(orders) && spec_orders_match(
                    orders@,
                    los,
                    component_id@,
                    spec_order_type(config.procurement_type),
                ),
                Err(e) => r matches Err(me) && spec_lot_err_matches(e, me),
            },
    {
        let min_level: Qty = match config.minimum_order_qty {
            Some(q) => q,
            None => config.safety_stock,
        };
        let max_level: Qty = match config.maximum_order_qty {
            Some(q) => q,
            None => {
                match min_level.checked_add(min_level) {
                    Some(m) => m,
                    None => {
                        return Err(
                            MrpError::CalculationError(
                                String::from_str("maximum level out of range"),
                            ),
                        );
                    },
                }
            },
        };
        let ghost nv = spec_net_views(net_requirements@);
        let ghost full = spec_min_max_from(nv, min_level@, max_level@, *config, *calendar, 0, 0);
        let otype = Self::determine_order_type(config.procurement_type);
        let mut orders: Vec<PlannedOrder> = Vec::new();
        let mut run = Qty::zero();
        let mut i: usize = 0;
        while i < net_requirements.len()
            invariant
                0 <= i <= net_requirements@.len(),
                nv == spec_net_views(net_requirements@),
                full == spec_min_max_from(nv, min_level@, max_level@, *config, *calendar, 0, 0),
                full == spec_min_max_outcome(nv, *config, *calendar),
                otype == spec_order_type(config.procurement_type),
                forall|k: int|
                    0 <= k < orders@.len() ==> {
                        let o = #[trigger] orders@[k];
                        o.id == 0 && o.component_id@ == component_id@ && o.order_type == otype
                            && o.source_id is None && o.pegging@.len() == 0
                    },
                match spec_min_max_from(
                    nv,
                    min_level@,
                    max_level@,
                    *config,
                    *calendar,
                    i as int,
                    run@,
                ) {
                    Ok(rest) => full matches Ok(flos) && flos == spec_lots_of(orders@) + rest,
                    Err(e) => full == Err::<Seq<LotOrder>, LotError>(e),
                },
            decreases net_requirements@.len() - i,
        {
            proof {
                assert(nv[i as int] == net_requirements@[i as int]@);
            }
            let n = net_requirements[i];
            let r1 = match run.checked_sub(n.gross_requirement) {
                Some(x) => x,
                None => {
                    return Err(
                        MrpError::CalculationError(
                            String::from_str("running inventory out of range"),
                        ),
                    );
                },
            };
            let r2 = match r1.checked_add(n.scheduled_receipt) {
                Some(x) => x,
                None => {
                    return Err(
                        MrpError::CalculationError(
                            String::from_str("running inventory out of range"),
                        ),
                    );
                },
            };
            if r2.lt(&min_level) {
                let oq = match max_level.checked_sub(r2) {
                    Some(x) => x,
                    None => {
                        return Err(
                            MrpError::CalculationError(
                                String::from_str("order quantity out of range"),
                            ),
                        );
                    },
                };
                let adj = match checked_adjust(config, oq) {
                    Some(a) => a,
                    None => {
                        return Err(
                            MrpError::CalculationError(
                                String::from_str("order quantity out of range"),
                            ),
                        );
                    },
                };
                let od = match compute_order_date(calendar, n.date, config.lead_time_days) {
                    Some(d) => d,
                    None => {
                        return Err(
                            MrpError::InvalidDate(String::from_str("order date out of range")),
                        );
                    },
                };
                let r3 = match r2.checked_add(adj) {
                    Some(x) => x,
                    None => {
                        return Err(
                            MrpError::CalculationError(
                                String::from_str("running inventory out of range"),
                            ),
                        );
                    },
                };
                let order = PlannedOrder::new(
                    String::from_str(component_id),
                    adj,
                    n.date,
                    od,
                    otype,
                );
                proof {
                    let lo = LotOrder {
                        quantity: adj@,
                        required_date: n.date@,
                        order_date: od@,
                    };
                    assert(spec_lots_of(orders@.push(order)) =~= spec_lots_of(orders@).push(lo));
                    if spec_min_max_from(
                        nv,
                        min_level@,
                        max_level@,
                        *config,
                        *calendar,
                        i + 1,
                        r3@,
                    ) is Ok {
                        let rest = spec_min_max_from(
                            nv,
                            min_level@,
                            max_level@,
                            *config,
                            *calendar,
                            i + 1,
                            r3@,
                        )->Ok_0;
                        assert(spec_lots_of(orders@) + (seq![lo] + rest) =~= spec_lots_of(
                            orders@,
                        ).push(lo) + rest);
                    }
                }
                orders.push(order);
                run = r3;
            } else {
                run = r2;
            }
            i += 1;
        }
        proof {
            assert(spec_lots_of(orders@) + Seq::<LotOrder>::empty() =~= spec_lots_of(orders@));
        }
        Ok(orders)
    }

    /// Applies the configuration's lot-sizing policy.
    pub fn apply(
        component_id: &str,
        net_requirements: &Vec<NetRequirement>,
        config: &MrpConfig,
        calendar: &WorkCalendar,
    ) -> (r: Result<Vec<PlannedOrder>, MrpError>)
        ensures
            match spec_apply_lot_sizing(spec_net_views(net_requirements@), *config, *calendar) {
                Ok(los) => r matches Ok(orders) && spec_orders_match(
                    orders@,
                    los,
                    component_id@,
                    spec_order_type(config.procurement_type),
                ),
                Err(e) => r matches Err(me) && spec_lot_err_matches(e, me),
            },
    {
        match config.lot_sizing_rule {
            LotSizingRule::LotForLot => Self::lot_for_lot(
                component_id,
                net_requirements,
                config,
                calendar,
            ),
            LotSizingRule::FixedOrderQuantity => Self::fixed_order_quantity(
                component_id,
                net_requirements,
                config,
                calendar,
            ),
            LotSizingRule::EconomicOrderQuantity => Self::economic_order_quantity(
                component_id,
                net_requirements,
                config,
                calendar,
            ),
            LotSizingRule::PeriodOrderQuantity => Self::period_order_quantity(
                component_id,
                net_requirements,
                config,
                calendar,
            ),
            LotSizingRule::MinMax => Self::min_max(
                component_id,
                net_requirements,
                config,
                calendar,
            ),
        }
    }
}



/// Whether every determined order honours the quantity constraints.
pub open spec fn spec_orders_within_constraints(los: Seq<LotOrder>, cfg: MrpConfig) -> bool {
    forall|k: int|
        0 <= k < los.len() ==> crate::config::spec_constraints_hold(
            cfg.spec_min(),
            cfg.spec_max(),
            cfg.spec_multiple(),
            (#[trigger] los[k]).quantity,
        )
}

/// Every lot-for-lot order honours consistent quantity constraints.
pub proof fn lemma_lot_for_lot_constraints(
    nets: Seq<NetRequirementView>,
    cfg: MrpConfig,
    cal: WorkCalendar,
    i: int,
)
    requires
        crate::config::spec_constraints_consistent(cfg.spec_min(), cfg.spec_max(), cfg.spec_multiple()),
        spec_lot_for_lot_from(nets, cfg, cal, i) is Ok,
    ensures
        spec_orders_within_constraints(spec_lot_for_lot_from(nets, cfg, cal, i)->Ok_0, cfg),
    decreases nets.len() - i,
{
    if i < 0 || i >= nets.len() {
    } else if nets[i].net_requirement > 0 {
        let od = spec_order_date(cal, nets[i].date, cfg.lead_time_days as int);
        lemma_lot_for_lot_constraints(nets, cfg, cal, i + 1);
        crate::config::lemma_adjust_bounds(
            cfg.spec_min(),
            cfg.spec_max(),
            cfg.spec_multiple(),
            nets[i].net_requirement,
        );
        let whole = spec_lot_for_lot_from(nets, cfg, cal, i)->Ok_0;
        let rest = spec_lot_for_lot_from(nets, cfg, cal, i + 1)->Ok_0;
        assert forall|k: int|
            0 <= k < whole.len() implies crate::config::spec_constraints_hold(
            cfg.spec_min(),
            cfg.spec_max(),
            cfg.spec_multiple(),
            (#[trigger] whole[k]).quantity,
        ) by {
            if k > 0 {
                assert(whole[k] == rest[k - 1]);
            }
        }
    } else {
        lemma_lot_for_lot_constraints(nets, cfg, cal, i + 1);
    }
}

/// Every fixed-lot order honours consistent quantity constraints.
pub proof fn lemma_fixed_lot_constraints(
    nets: Seq<NetRequirementView>,
    lot: int,
    cfg: MrpConfig,
    cal: WorkCalendar,
    i: int,
    r: int,
)
    requires
        crate::config::spec_constraints_consistent(cfg.spec_min(), cfg.spec_max(), cfg.spec_multiple()),
        spec_fixed_lot_from(nets, lot, cfg, cal, i, r) is Ok,
    ensures
        spec_orders_within_constraints(spec_fixed_lot_from(nets, lot, cfg, cal, i, r)->Ok_0, cfg),
    decreases nets.len() - i,
{
    if i < 0 || i >= nets.len() {
    } else {
        let r2 = r - nets[i].gross_requirement + nets[i].scheduled_receipt;
        if r2 < cfg.safety_stock@ {
            let shortage = cfg.safety_stock@ - r2;
            let batches = (shortage + lot - 1) / lot;
            let oq = batches * lot;
            vstd::arithmetic::div_mod::lemma_div_by_self(lot);
            vstd::arithmetic::div_mod::lemma_div_is_ordered(lot, shortage + lot - 1, lot);
            assert(batches >= 1);
            assert(oq >= lot) by (nonlinear_arith)
                requires
                    batches >= 1,
                    lot >= 1,
                    oq == batches * lot,
            {
            }
            let adj = cfg.spec_adjust(oq);
            crate::config::lemma_adjust_bounds(cfg.spec_min(), cfg.spec_max(), cfg.spec_multiple(), oq);
            lemma_fixed_lot_constraints(nets, lot, cfg, cal, i + 1, r2 + adj);
            let whole = spec_fixed_lot_from(nets, lot, cfg, cal, i, r)->Ok_0;
            let rest = spec_fixed_lot_from(nets, lot, cfg, cal, i + 1, r2 + adj)->Ok_0;
            assert forall|k: int|
                0 <= k < whole.len() implies crate::config::spec_constraints_hold(
                cfg.spec_min(),
                cfg.spec_max(),
                cfg.spec_multiple(),
                (#[trigger] whole[k]).quantity,
            ) by {
                if k > 0 {
                    assert(whole[k] == rest[k - 1]);
                }
            }
        } else {
            lemma_fixed_lot_constraints(nets, lot, cfg, cal, i + 1, r2);
        }
    }
}

/// Every period order honours consistent quantity constraints.
pub proof fn lemma_period_constraints(
    nets: Seq<NetRequirementView>,
    cfg: MrpConfig,
    cal: WorkCalendar,
    i: int,
)
    requires
        crate::config::spec_constraints_consistent(cfg.spec_min(), cfg.spec_max(), cfg.spec_multiple()),
        spec_period_from(nets, cfg, cal, i) is Ok,
    ensures
        spec_orders_within_constraints(spec_period_from(nets, cfg, cal, i)->Ok_0, cfg),
    decreases nets.len() - i,
{
    if i < 0 || i >= nets.len() {
    } else {
        let end = spec_window_end(nets, i, i + 1);
        lemma_window_end_bounds(nets, i, i + 1);
        match spec_sum_net_window(nets, i, end, 0) {
            Err(_) => {},
            Ok(total) => {
                if total > 0 {
                    crate::config::lemma_adjust_bounds(
                        cfg.spec_min(),
                        cfg.spec_max(),
                        cfg.spec_multiple(),
                        total,
                    );
                    lemma_period_constraints(nets, cfg, cal, end);
                    let whole = spec_period_from(nets, cfg, cal, i)->Ok_0;
                    let rest = spec_period_from(nets, cfg, cal, end)->Ok_0;
                    assert forall|k: int|
                        0 <= k < whole.len() implies crate::config::spec_constraints_hold(
                        cfg.spec_min(),
                        cfg.spec_max(),
                        cfg.spec_multiple(),
                        (#[trigger] whole[k]).quantity,
                    ) by {
                        if k > 0 {
                            assert(whole[k] == rest[k - 1]);
                        }
                    }
                } else {
                    lemma_period_constraints(nets, cfg, cal, end);
                }
            },
        }
    }
}

/// Every min-max order honours consistent quantity constraints, given
/// a maximum level at or above the minimum level.
pub proof fn lemma_min_max_constraints(
    nets: Seq<NetRequirementView>,
    min_level: int,
    max_level: int,
    cfg: MrpConfig,
    cal: WorkCalendar,
    i: int,
    r: int,
)
    requires
        crate::config::spec_constraints_consistent(cfg.spec_min(), cfg.spec_max(), cfg.spec_multiple()),
        min_level <= max_level,
        spec_min_max_from(nets, min_level, max_level, cfg, cal, i, r) is Ok,
    ensures
        spec_orders_within_constraints(
            spec_min_max_from(nets, min_level, max_level, cfg, cal, i, r)->Ok_0,
            cfg,
        ),
    decreases nets.len() - i,
{
    if i < 0 || i >= nets.len() {
    } else {
        let r2 = r - nets[i].gross_requirement + nets[i].scheduled_receipt;
        if r2 < min_level {
            let oq = max_level - r2;
            assert(oq > 0);
            let adj = cfg.spec_adjust(oq);
            crate::config::lemma_adjust_bounds(cfg.spec_min(), cfg.spec_max(), cfg.spec_multiple(), oq);
            lemma_min_max_constraints(nets, min_level, max_level, cfg, cal, i + 1, r2 + adj);
            let whole = spec_min_max_from(nets, min_level, max_level, cfg, cal, i, r)->Ok_0;
            let rest = spec_min_max_from(nets, min_level, max_level, cfg, cal, i + 1, r2 + adj)->Ok_0;
            assert forall|k: int|
                0 <= k < whole.len() implies crate::config::spec_constraints_hold(
                cfg.spec_min(),
                cfg.spec_max(),
                cfg.spec_multiple(),
                (#[trigger] whole[k]).quantity,
            ) by {
                if k > 0 {
                    assert(whole[k] == rest[k - 1]);
                }
            }
        } else {
            lemma_min_max_constraints(nets, min_level, max_level, cfg, cal, i + 1, r2);
        }
    }
}

/// Every quantity any lot-sizing policy emits honours the item's
/// quantity constraints, provided they are consistent with each other
/// and, for the min-max policy, the refill levels are ordered.
pub proof fn lemma_lot_sizing_constraints(
    nets: Seq<NetRequirementView>,
    cfg: MrpConfig,
    cal: WorkCalendar,
)
    requires
        crate::config::spec_constraints_consistent(cfg.spec_min(), cfg.spec_max(), cfg.spec_multiple()),
        cfg.lot_sizing_rule == LotSizingRule::MinMax ==> ({
            let min_level = match cfg.minimum_order_qty {
                Some(q) => q@,
                None => cfg.safety_stock@,
            };
            match cfg.maximum_order_qty {
                Some(q) => min_level <= q@,
                None => min_level >= 0,
            }
        }),
        spec_apply_lot_sizing(nets, cfg, cal) is Ok,
    ensures
        spec_orders_within_constraints(spec_apply_lot_sizing(nets, cfg, cal)->Ok_0, cfg),
{
    match cfg.lot_sizing_rule {
        LotSizingRule::LotForLot => {
            lemma_lot_for_lot_constraints(nets, cfg, cal, 0);
        },
        LotSizingRule::FixedOrderQuantity => {
            match cfg.fixed_lot_size {
                None => {},
                Some(lot) => {
                    lemma_fixed_lot_constraints(nets, lot@, cfg, cal, 0, 0);
                },
            }
        },
        LotSizingRule::EconomicOrderQuantity => {
            match cfg.fixed_lot_size {
                Some(lot) => {
                    lemma_fixed_lot_constraints(nets, lot@, cfg, cal, 0, 0);
                },
                None => {
                    match spec_sum_net_from(nets, 0, 0) {
                        Err(_) => {},
                        Ok(total) => {
                            lemma_fixed_lot_constraints(nets, spec_eoq_lot(total), cfg, cal, 0, 0);
                        },
                    }
                },
            }
        },
        LotSizingRule::PeriodOrderQuantity => {
            lemma_period_constraints(nets, cfg, cal, 0);
        },
        LotSizingRule::MinMax => {
            let min_level = match cfg.minimum_order_qty {
                Some(q) => q@,
                None => cfg.safety_stock@,
            };
            match cfg.maximum_order_qty {
                Some(q) => {
                    lemma_min_max_constraints(nets, min_level, q@, cfg, cal, 0, 0);
                },
                None => {
                    if fits_qty(2 * min_level) {
                        lemma_min_max_constraints(nets, min_level, 2 * min_level, cfg, cal, 0, 0);
                    }
                },
            }
        },
    }
}


/// The normalization never lowers a quantity when no maximum is set.
proof fn lemma_adjust_raises(cfg: MrpConfig, q: int)
    requires
        cfg.spec_max() is None,
    ensures
        cfg.spec_adjust(q) >= q,
{
    match cfg.spec_multiple() {
        Some(m) => {
            if m > 0 {
                vstd::arithmetic::div_mod::lemma_mod_bound(
                    match cfg.spec_min() {
                        Some(mn) => if q < mn {
                            mn
                        } else {
                            q
                        },
                        None => q,
                    },
                    m,
                );
            }
        },
        None => {},
    }
}

/// Whether some order in the sequence falls on `date` with at least
/// quantity `need`.
pub open spec fn spec_covers(los: Seq<LotOrder>, date: int, need: int) -> bool {
    exists|k: int|
        0 <= k < los.len() && (#[trigger] los[k]).required_date == date && los[k].quantity >= need
}

/// Conservation under lot-for-lot: when no maximum cap is set, every
/// bucket with a positive net requirement receives an order on its own
/// day covering at least that requirement.
pub proof fn lemma_lot_for_lot_conservation(
    nets: Seq<NetRequirementView>,
    cfg: MrpConfig,
    cal: WorkCalendar,
    i: int,
)
    requires
        0 <= i,
        cfg.spec_max() is None,
        spec_lot_for_lot_from(nets, cfg, cal, i) is Ok,
    ensures
        forall|j: int|
            i <= j < nets.len() && (#[trigger] nets[j]).net_requirement > 0 ==> spec_covers(
                spec_lot_for_lot_from(nets, cfg, cal, i)->Ok_0,
                nets[j].date,
                nets[j].net_requirement,
            ),
    decreases nets.len() - i,
{
    if i < 0 || i >= nets.len() {
    } else if nets[i].net_requirement > 0 {
        lemma_lot_for_lot_conservation(nets, cfg, cal, i + 1);
        lemma_adjust_raises(cfg, nets[i].net_requirement);
        let whole = spec_lot_for_lot_from(nets, cfg, cal, i)->Ok_0;
        let rest = spec_lot_for_lot_from(nets, cfg, cal, i + 1)->Ok_0;
        assert forall|j: int|
            i <= j < nets.len() && (#[trigger] nets[j]).net_requirement > 0 implies spec_covers(
                whole,
                nets[j].date,
                nets[j].net_requirement,
            ) by {
            if j == i {
                assert(whole[0].required_date == nets[j].date && whole[0].quantity >= nets[
                    j
                ].net_requirement);
            } else {
                assert(spec_covers(rest, nets[j].date, nets[j].net_requirement));
                let k = choose|k: int|
                    0 <= k < rest.len() && (#[trigger] rest[k]).required_date == nets[j].date
                        && rest[k].quantity >= nets[j].net_requirement;
                assert(whole[k + 1] == rest[k]);
                assert(whole[k + 1].required_date == nets[j].date && whole[k + 1].quantity
                    >= nets[j].net_requirement);
            }
        }
    } else {
        lemma_lot_for_lot_conservation(nets, cfg, cal, i + 1);
        let whole = spec_lot_for_lot_from(nets, cfg, cal, i)->Ok_0;
        let rest = spec_lot_for_lot_from(nets, cfg, cal, i + 1)->Ok_0;
        assert(whole == rest);
        assert forall|j: int|
            i <= j < nets.len() && (#[trigger] nets[j]).net_requirement > 0 implies spec_covers(
                whole,
                nets[j].date,
                nets[j].net_requirement,
            ) by {
            assert(spec_covers(rest, nets[j].date, nets[j].net_requirement));
        }
    }
}

} // verus!
