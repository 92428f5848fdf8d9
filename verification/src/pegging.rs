//! Pegging: tracing planned orders back to the demands they satisfy.
//!
//! For one planned order the candidates are the demands of the same
//! item falling due on the order's required day, in their given order.
//! Walking them consumes the order's quantity: each candidate is pegged
//! the smaller of its own quantity and what remains, until nothing
//! remains.  A single-level path names the pegged item; a multi-level
//! path prepends the parent reference of a dependent demand.

use vstd::prelude::*;

use std::collections::HashMap;

use crate::date::Date;
use crate::demand::{Demand, DemandType, DemandView};
use crate::error::MrpError;
use crate::netting::spec_demand_views;
use crate::plan::{PeggingRecord, PlannedOrder};
use crate::qty::{fits_qty, Qty};

verus! {

broadcast use vstd::std_specs::hash::group_hash_axioms, crate::qty::lemma_qty_fits;

/// How far back a pegging path reaches.
#[derive(Debug, Clone, Copy, PartialEq, Eq, Structural)]
pub enum PeggingType {
    /// The path names the pegged item alone.
    SingleLevel,
    /// The path prepends the parent reference of a dependent demand.
    MultiLevel,
}

/// One determined pegging record: demand, pegged quantity and path.
pub struct PegV {
    pub demand_id: u64,
    pub quantity: int,
    pub path: Seq<Seq<char>>,
}

/// The path a matched demand contributes under a pegging type.
pub open spec fn spec_peg_path(item: Seq<char>, d: DemandView, multi: bool) -> Seq<Seq<char>> {
    if multi && d.demand_type == DemandType::Dependent && d.source_ref is Some {
        seq![d.source_ref->0, item]
    } else {
        seq![item]
    }
}

/// The pegging records of one order, walking the demands from index
/// `i` with `remaining` quantity still to attribute.
pub open spec fn spec_trace_from(
    item: Seq<char>,
    date: int,
    demands: Seq<DemandView>,
    multi: bool,
    i: int,
    remaining: int,
) -> Seq<PegV>
    decreases demands.len() - i,
{
    if i < 0 || i >= demands.len() {
        Seq::empty()
    } else {
        let d = demands[i];
        if d.component_id == item && d.required_date == date && remaining > 0 {
            let pegged = if d.quantity <= remaining {
                d.quantity
            } else {
                remaining
            };
            seq![PegV { demand_id: d.id, quantity: pegged, path: spec_peg_path(item, d, multi) }]
                + spec_trace_from(item, date, demands, multi, i + 1, remaining - pegged)
        } else {
            spec_trace_from(item, date, demands, multi, i + 1, remaining)
        }
    }
}

/// The total quantity a record sequence pegs.
pub open spec fn spec_peg_sum(records: Seq<PegV>) -> int
    decreases records.len(),
{
    if records.len() == 0 {
        0
    } else {
        spec_peg_sum(records.drop_last()) + records.last().quantity
    }
}

/// The determined image of realised pegging records.
pub open spec fn spec_pegs_of(records: Seq<PeggingRecord>) -> Seq<PegV> {
    records.map_values(
        |r: PeggingRecord| PegV { demand_id: r.demand_id, quantity: r.quantity@, path: r@.path },
    )
}

/// Traces planned orders back to demands.
pub struct PeggingCalculator;

impl PeggingCalculator {
    /// The path of one matched demand.
    fn build_path(component_id: &String, d: &Demand, multi: bool) -> (r: Vec<String>)
        ensures
            r@.map_values(|s: String| s@) == spec_peg_path(component_id@, d@, multi),
    {
        let mut path: Vec<String> = Vec::new();
        if multi && d.is_dependent() {
            match &d.source_ref {
                Some(parent_ref) => {
                    path.push(parent_ref.clone());
                },
                None => {},
            }
        }
        path.push(component_id.clone());
        proof {
            assert(path@.map_values(|s: String| s@) =~= spec_peg_path(component_id@, d@, multi));
        }
        path
    }

    /// The records of one order: candidates walked in order, each
    /// pegged the smaller of its quantity and what remains.
    fn trace_demand_source(
        component_id: &String,
        quantity: Qty,
        date: Date,
        demands: &Vec<Demand>,
        multi: bool,
    ) -> (r: Vec<PeggingRecord>)
        requires
            forall|i: int| 0 <= i < demands@.len() ==> demands@[i].quantity@ >= 0,
        ensures
            spec_pegs_of(r@) == spec_trace_from(
                component_id@,
                date@,
                spec_demand_views(demands@),
                multi,
                0,
                quantity@,
            ),
    {
        let ghost dv = spec_demand_views(demands@);
        let ghost full = spec_trace_from(component_id@, date@, dv, multi, 0, quantity@);
        let mut records: Vec<PeggingRecord> = Vec::new();
        let mut remaining = quantity;
        let mut i: usize = 0;
        while i < demands.len()
            invariant
                0 <= i <= demands@.len(),
                dv == spec_demand_views(demands@),
                forall|j: int| 0 <= j < demands@.len() ==> demands@[j].quantity@ >= 0,
                full == spec_trace_from(component_id@, date@, dv, multi, 0, quantity@),
                full == spec_pegs_of(records@) + spec_trace_from(
                    component_id@,
                    date@,
                    dv,
                    multi,
                    i as int,
                    remaining@,
                ),
            decreases demands@.len() - i,
        {
            proof {
                assert(dv[i as int] == demands@[i as int]@);
            }
            let d = &demands[i];
            if d.component_id.eq(component_id) && d.required_date.eq_date(&date)
                && remaining.is_positive() {
                let pegged = d.quantity.min_with(remaining);
                let path: Vec<String> = Self::build_path(component_id, d, multi);
                let record = PeggingRecord::new(d.id, pegged).with_path(path);
                let ghost records_before = records@;
                let ghost rem_before = remaining@;
                records.push(record);
                match remaining.checked_sub(pegged) {
                    Some(x) => {
                        remaining = x;
                    },
                    None => {
                        proof {
                            assert(fits_qty(rem_before));
                            assert(0 <= pegged@ <= rem_before);
                        }
                        remaining = Qty::zero();
                    },
                }
                proof {
                    let dd = dv[i as int];
                    let pegged_spec = if dd.quantity <= rem_before {
                        dd.quantity
                    } else {
                        rem_before
                    };
                    let pv = PegV {
                        demand_id: dd.id,
                        quantity: pegged_spec,
                        path: spec_peg_path(component_id@, dd, multi),
                    };
                    let rest = spec_trace_from(
                        component_id@,
                        date@,
                        dv,
                        multi,
                        i + 1,
                        rem_before - pegged_spec,
                    );
                    assert(spec_trace_from(component_id@, date@, dv, multi, i as int, rem_before)
                        == seq![pv] + rest);
                    assert(remaining@ == rem_before - pegged_spec);
                    assert(records@ == records_before.push(record));
                    assert(record@.path == spec_peg_path(component_id@, dd, multi));
                    assert(spec_pegs_of(records_before.push(record)) =~= spec_pegs_of(
                        records_before,
                    ).push(pv));
                    assert(spec_pegs_of(records_before) + (seq![pv] + rest) =~= spec_pegs_of(
                        records_before,
                    ).push(pv) + rest);
                    assert(full == spec_pegs_of(records@) + spec_trace_from(
                        component_id@,
                        date@,
                        dv,
                        multi,
                        i + 1,
                        remaining@,
                    ));
                }
            } else {
                proof {
                    assert(spec_trace_from(component_id@, date@, dv, multi, i as int, remaining@)
                        == spec_trace_from(component_id@, date@, dv, multi, i + 1, remaining@));
                }
            }
            i += 1;
        }
        proof {
            assert(spec_pegs_of(records@) + Seq::<PegV>::empty() =~= spec_pegs_of(records@));
        }
        records
    }

    /// Traces every planned order: the result maps each order's
    /// identifier to its records.  Order identifiers must be distinct,
    /// as the planning kernel assigns them.
    pub fn perform(
        planned_orders: &Vec<PlannedOrder>,
        original_demands: &Vec<Demand>,
        pegging_type: PeggingType,
    ) -> (r: Result<HashMap<u64, Vec<PeggingRecord>>, MrpError>)
        requires
            forall|i: int| 0 <= i < original_demands@.len() ==> original_demands@[i].quantity@ >= 0,
            forall|i: int, j: int|
                0 <= i < j < planned_orders@.len() ==> planned_orders@[i].id
                    != planned_orders@[j].id,
        ensures
            r matches Ok(m) ==> {
                let multi = pegging_type == PeggingType::MultiLevel;
                &&& m@.dom().len() == planned_orders@.len()
                &&& forall|i: int|
                    0 <= i < planned_orders@.len() ==> {
                        let o = #[trigger] planned_orders@[i];
                        m@.contains_key(o.id) && spec_pegs_of(m@[o.id]@) == spec_trace_from(
                            o.component_id@,
                            o.required_date@,
                            spec_demand_views(original_demands@),
                            multi,
                            0,
                            o.quantity@,
                        )
                    }
            },
            r is Ok,
    {
        let multi = match pegging_type {
            PeggingType::SingleLevel => false,
            PeggingType::MultiLevel => true,
        };
        let ghost dv = spec_demand_views(original_demands@);
        let mut pegging_map: HashMap<u64, Vec<PeggingRecord>> = HashMap::new();
        let mut i: usize = 0;
        while i < planned_orders.len()
            invariant
                0 <= i <= planned_orders@.len(),
                dv == spec_demand_views(original_demands@),
                multi == (pegging_type == PeggingType::MultiLevel),
                forall|j: int|
                    0 <= j < original_demands@.len() ==> original_demands@[j].quantity@ >= 0,
                forall|a: int, b: int|
                    0 <= a < b < planned_orders@.len() ==> planned_orders@[a].id
                        != planned_orders@[b].id,
                pegging_map@.dom().len() == i,
                forall|j: int|
                    0 <= j < i ==> {
                        let o = #[trigger] planned_orders@[j];
                        pegging_map@.contains_key(o.id) && spec_pegs_of(pegging_map@[o.id]@)
                            == spec_trace_from(
                            o.component_id@,
                            o.required_date@,
                            dv,
                            multi,
                            0,
                            o.quantity@,
                        )
                    },
                forall|k: u64|
                    pegging_map@.contains_key(k) ==> exists|j: int|
                        0 <= j < i && (#[trigger] planned_orders@[j]).id == k,
            decreases planned_orders@.len() - i,
        {
            let order = &planned_orders[i];
            let records = Self::trace_demand_source(
                &order.component_id,
                order.quantity,
                order.required_date,
                original_demands,
                multi,
            );
            proof {
                assert(!pegging_map@.contains_key(order.id));
            }
            let ghost old_map = pegging_map@;
            pegging_map.insert(order.id, records);
            proof {
                assert(pegging_map@.dom() =~= old_map.dom().insert(order.id));
                vstd::set::axiom_set_insert_len(old_map.dom(), order.id);
            }
            i += 1;
        }
        Ok(pegging_map)
    }
}


/// The pegged total of a record prepended to a sequence splits off the
/// head's quantity.
proof fn lemma_peg_sum_cons(head: PegV, rest: Seq<PegV>)
    ensures
        spec_peg_sum(seq![head] + rest) == head.quantity + spec_peg_sum(rest),
    decreases rest.len(),
{
    if rest.len() == 0 {
        assert(seq![head] + rest =~= seq![head]);
        assert(seq![head].drop_last() =~= Seq::<PegV>::empty());
        assert(seq![head].last() == head);
        assert(spec_peg_sum(Seq::<PegV>::empty()) == 0);
    } else {
        lemma_peg_sum_cons(head, rest.drop_last());
        assert((seq![head] + rest).drop_last() =~= seq![head] + rest.drop_last());
        assert((seq![head] + rest).last() == rest.last());
    }
}

/// The records the walk emits from index `i` never peg more than the
/// remaining quantity, when no demand quantity is negative.
proof fn lemma_trace_from_bounded(
    item: Seq<char>,
    date: int,
    demands: Seq<DemandView>,
    multi: bool,
    i: int,
    remaining: int,
)
    requires
        forall|k: int| 0 <= k < demands.len() ==> demands[k].quantity >= 0,
    ensures
        spec_peg_sum(spec_trace_from(item, date, demands, multi, i, remaining)) <= if remaining
            >= 0 {
            remaining
        } else {
            0int
        },
        spec_peg_sum(spec_trace_from(item, date, demands, multi, i, remaining)) >= 0,
    decreases demands.len() - i,
{
    if i < 0 || i >= demands.len() {
    } else {
        let d = demands[i];
        if d.component_id == item && d.required_date == date && remaining > 0 {
            let pegged = if d.quantity <= remaining {
                d.quantity
            } else {
                remaining
            };
            lemma_trace_from_bounded(item, date, demands, multi, i + 1, remaining - pegged);
            lemma_peg_sum_cons(
                PegV { demand_id: d.id, quantity: pegged, path: spec_peg_path(item, d, multi) },
                spec_trace_from(item, date, demands, multi, i + 1, remaining - pegged),
            );
        } else {
            lemma_trace_from_bounded(item, date, demands, multi, i + 1, remaining);
        }
    }
}

/// The pegged quantities of one order sum to no more than the order's
/// own quantity: a planned order is never attributed beyond itself.
pub proof fn lemma_pegging_bounded(
    item: Seq<char>,
    date: int,
    demands: Seq<DemandView>,
    multi: bool,
    quantity: int,
)
    requires
        forall|k: int| 0 <= k < demands.len() ==> demands[k].quantity >= 0,
        quantity >= 0,
    ensures
        spec_peg_sum(spec_trace_from(item, date, demands, multi, 0, quantity)) <= quantity,
        spec_peg_sum(spec_trace_from(item, date, demands, multi, 0, quantity)) >= 0,
{
    lemma_trace_from_bounded(item, date, demands, multi, 0, quantity);
}

/// Each record pegs no more than the demand it is pegged to, and no
/// less than nothing.
pub proof fn lemma_pegging_per_record(
    item: Seq<char>,
    date: int,
    demands: Seq<DemandView>,
    multi: bool,
    i: int,
    remaining: int,
)
    requires
        forall|k: int| 0 <= k < demands.len() ==> demands[k].quantity >= 0,
    ensures
        forall|x: int|
            0 <= x < spec_trace_from(item, date, demands, multi, i, remaining).len() ==> {
                let r = #[trigger] spec_trace_from(item, date, demands, multi, i, remaining)[x];
                r.quantity >= 0 && exists|k: int|
                    0 <= k < demands.len() && demands[k].id == r.demand_id && r.quantity
                        <= demands[k].quantity
            },
    decreases demands.len() - i,
{
    if i < 0 || i >= demands.len() {
    } else {
        let d = demands[i];
        if d.component_id == item && d.required_date == date && remaining > 0 {
            let pegged = if d.quantity <= remaining {
                d.quantity
            } else {
                remaining
            };
            lemma_pegging_per_record(item, date, demands, multi, i + 1, remaining - pegged);
            let head = PegV {
                demand_id: d.id,
                quantity: pegged,
                path: spec_peg_path(item, d, multi),
            };
            let rest = spec_trace_from(item, date, demands, multi, i + 1, remaining - pegged);
            let whole = spec_trace_from(item, date, demands, multi, i, remaining);
            assert(whole == seq![head] + rest);
            assert forall|x: int| 0 <= x < whole.len() implies {
                let r = #[trigger] whole[x];
                r.quantity >= 0 && exists|k: int|
                    0 <= k < demands.len() && demands[k].id == r.demand_id && r.quantity
                        <= demands[k].quantity
            } by {
                if x == 0 {
                    assert(whole[0] == head);
                    assert(demands[i].id == head.demand_id && head.quantity <= demands[i].quantity);
                } else {
                    assert(whole[x] == rest[x - 1]);
                }
            }
        } else {
            lemma_pegging_per_record(item, date, demands, multi, i + 1, remaining);
            let whole = spec_trace_from(item, date, demands, multi, i, remaining);
            let rest = spec_trace_from(item, date, demands, multi, i + 1, remaining);
            assert(whole == rest);
            assert forall|x: int| 0 <= x < whole.len() implies {
                let r = #[trigger] whole[x];
                r.quantity >= 0 && exists|k: int|
                    0 <= k < demands.len() && demands[k].id == r.demand_id && r.quantity
                        <= demands[k].quantity
            } by {
                assert(whole[x] == rest[x]);
            }
        }
    }
}

} // verus!
