//! The planning kernel.
//!
//! One run plans the items reachable from the given demands, in
//! topological order of the bill of materials, parents first.  Each
//! item's step merges its independent and accumulated dependent
//! demands, builds its time axis, nets, sizes lots, and explodes the
//! emitted orders into dependent demands for child items.  When every
//! item has settled, pegging traces each order back to the demands it
//! satisfies.  The whole run is one function of its inputs: the
//! specification below determines every planned order exactly.

use vstd::prelude::*;

use crate::bom::BomGraph;
use crate::bucketing::{insert_sorted_unique, spec_axis_days, BucketingCalculator};
use crate::calendar::WorkCalendar;
use crate::config::MrpConfig;
use crate::date::Date;
use crate::demand::{Demand, DemandType, DemandView};
use crate::error::MrpError;
use crate::inventory::{Inventory, InventoryView};
use crate::lot_sizing::{
    spec_apply_lot_sizing, spec_lot_err_matches, spec_order_type, spec_orders_match, LotError,
    LotOrder, LotSizingCalculator,
};
use crate::netting::{
    spec_day_views, spec_demand_views, spec_gross_at, spec_net_req, spec_netting_fits, spec_poh,
    spec_receipt_at, spec_supply_views, NettingCalculator, NetRequirementView,
};
use crate::pegging::{spec_pegs_of, spec_trace_from, PeggingCalculator, PeggingType};
use crate::plan::{PlannedOrder, PlannedOrderType};
use crate::qty::{fits_qty, Qty};
use crate::result::{ComponentMrpResult, MrpResult, MrpWarning, WarningSeverity};
use crate::supply::{Supply, SupplyView};

verus! {

broadcast use crate::qty::lemma_qty_fits;

/// The demands of one item, from index `i` on, in their given order.
pub open spec fn spec_demands_of_item(ds: Seq<DemandView>, item: Seq<char>, i: int) -> Seq<
    DemandView,
>
    decreases ds.len() - i,
{
    if i < 0 || i >= ds.len() {
        Seq::empty()
    } else if ds[i].component_id == item {
        seq![ds[i]] + spec_demands_of_item(ds, item, i + 1)
    } else {
        spec_demands_of_item(ds, item, i + 1)
    }
}

/// The supplies of one item, from index `i` on, in their given order.
pub open spec fn spec_supplies_of_item(ss: Seq<SupplyView>, item: Seq<char>, i: int) -> Seq<
    SupplyView,
>
    decreases ss.len() - i,
{
    if i < 0 || i >= ss.len() {
        Seq::empty()
    } else if ss[i].component_id == item {
        seq![ss[i]] + spec_supplies_of_item(ss, item, i + 1)
    } else {
        spec_supplies_of_item(ss, item, i + 1)
    }
}

/// The available stock of one item: the first matching inventory's
/// available quantity, zero when none matches.
pub open spec fn spec_available_of_item(invs: Seq<InventoryView>, item: Seq<char>, i: int) -> int
    decreases invs.len() - i,
{
    if i < 0 || i >= invs.len() {
        0
    } else if invs[i].component_id == item {
        invs[i].available_qty
    } else {
        spec_available_of_item(invs, item, i + 1)
    }
}

/// The first configuration of one item.
pub open spec fn spec_config_of_item(cfgs: Seq<MrpConfig>, item: Seq<char>, i: int) -> Option<
    MrpConfig,
>
    decreases cfgs.len() - i,
{
    if i < 0 || i >= cfgs.len() {
        None
    } else if cfgs[i].component_id@ == item {
        Some(cfgs[i])
    } else {
        spec_config_of_item(cfgs, item, i + 1)
    }
}

/// The item's axis: the run's base axis extended by the item's own
/// demand and supply dates.
pub open spec fn spec_component_axis(
    base: Seq<int>,
    ds: Seq<DemandView>,
    ss: Seq<SupplyView>,
) -> Seq<int> {
    crate::bucketing::spec_add_supply_days(
        crate::bucketing::spec_add_demand_days(base, ds, 0),
        ss,
        0,
    )
}

/// The netting series of an item over its axis.
pub open spec fn spec_nets_of(
    ds: Seq<DemandView>,
    ss: Seq<SupplyView>,
    initial: int,
    safety_stock: int,
    axis: Seq<int>,
    allow_negative: bool,
) -> Seq<NetRequirementView> {
    Seq::new(
        axis.len(),
        |i: int|
            NetRequirementView {
                date: axis[i],
                gross_requirement: spec_gross_at(ds, axis[i]),
                scheduled_receipt: spec_receipt_at(ss, axis[i]),
                projected_on_hand: spec_poh(ds, ss, initial, axis, i),
                net_requirement: spec_net_req(ds, ss, initial, safety_stock, axis, allow_negative, i),
            },
    )
}

/// The decimal digit character of `d`.
pub open spec fn spec_digit_char(d: int) -> char {
    if d == 0 {
        '0'
    } else if d == 1 {
        '1'
    } else if d == 2 {
        '2'
    } else if d == 3 {
        '3'
    } else if d == 4 {
        '4'
    } else if d == 5 {
        '5'
    } else if d == 6 {
        '6'
    } else if d == 7 {
        '7'
    } else if d == 8 {
        '8'
    } else {
        '9'
    }
}

/// The decimal digits of a non-negative number.
pub open spec fn spec_u64_digits(n: int) -> Seq<char>
    decreases n,
{
    if n < 10 {
        seq![spec_digit_char(if n < 0 {
            0
        } else {
            n
        })]
    } else {
        spec_u64_digits(n / 10).push(spec_digit_char(n % 10))
    }
}

/// The parent reference a dependent demand carries: the parent item, a
/// colon, and the parent order's identifier in decimal.
pub open spec fn spec_source_ref(item: Seq<char>, oid: u64) -> Seq<char> {
    item + seq![':'] + spec_u64_digits(oid as int)
}

/// The truncated fixed-point product of two quantities.
pub open spec fn spec_mul_qty(a: int, b: int) -> int {
    let p = a * b;
    if p >= 0 {
        p / 10000
    } else {
        -((-p) / 10000)
    }
}

/// One planned order as the kernel determines it.
pub struct KOrderV {
    pub id: u64,
    pub item: Seq<char>,
    pub quantity: int,
    pub required_date: int,
    pub order_date: int,
    pub order_type: PlannedOrderType,
}

/// One warning as the kernel determines it.
pub struct KWarnV {
    pub item: Seq<char>,
    pub severity: WarningSeverity,
}

/// Why a planning run fails.
pub enum KErrV {
    /// An item to plan has no configuration.
    ConfigMissing(Seq<char>),
    /// The items to plan contain a dependency cycle.
    Cycle,
    /// A netting value left the representable range.
    NettingRange,
    /// Lot sizing failed.
    Lot(LotError),
    /// A dependent-demand quantity left the representable range.
    ChildQtyRange,
    /// The run needed more order identifiers than exist.
    IdRange,
}

/// Whether a reported error realises a determined failure.
pub open spec fn spec_kerr_matches(e: KErrV, me: MrpError) -> bool {
    match e {
        KErrV::ConfigMissing(item) => me matches MrpError::ConfigNotFound(s) && s@ == item,
        KErrV::Cycle => me is TopologicalSortError,
        KErrV::NettingRange => me is CalculationError,
        KErrV::Lot(le) => spec_lot_err_matches(le, me),
        KErrV::ChildQtyRange => me is CalculationError,
        KErrV::IdRange => me is CalculationError,
    }
}


/// The dependent demands one order casts on the children of `item`,
/// scanning the graph's edges from `j`.
pub open spec fn spec_explode_order(
    bom: BomGraph,
    item: Seq<char>,
    o: KOrderV,
    j: int,
) -> Result<Seq<DemandView>, KErrV>
    decreases bom.edges@.len() - j,
{
    if j < 0 || j >= bom.edges@.len() {
        Ok(Seq::empty())
    } else {
        let e = bom.edges@[j];
        if bom.nodes@[e.parent as int]@ == item {
            let q = spec_mul_qty(o.quantity, e.quantity_per@);
            if !fits_qty(q) || q < 0 {
                Err(KErrV::ChildQtyRange)
            } else {
                let child = DemandView {
                    id: 0,
                    component_id: bom.nodes@[e.child as int]@,
                    quantity: q,
                    required_date: o.order_date,
                    demand_type: DemandType::Dependent,
                    source_ref: Some(spec_source_ref(item, o.id)),
                    priority: 5,
                    plant_id: None,
                };
                match spec_explode_order(bom, item, o, j + 1) {
                    Err(err) => Err(err),
                    Ok(rest) => Ok(seq![child] + rest),
                }
            }
        } else {
            spec_explode_order(bom, item, o, j + 1)
        }
    }
}

/// The dependent demands a batch of orders on `item` casts, order by
/// order from index `k`.
pub open spec fn spec_explode_orders(
    bom: BomGraph,
    item: Seq<char>,
    kos: Seq<KOrderV>,
    k: int,
) -> Result<Seq<DemandView>, KErrV>
    decreases kos.len() - k,
{
    if k < 0 || k >= kos.len() {
        Ok(Seq::empty())
    } else {
        match spec_explode_order(bom, item, kos[k], 0) {
            Err(e) => Err(e),
            Ok(cds) => match spec_explode_orders(bom, item, kos, k + 1) {
                Err(e) => Err(e),
                Ok(rest) => Ok(cds + rest),
            },
        }
    }
}

/// Identifiers `next` onward handed to the determined orders of one
/// item; fails when the identifiers run out.
pub open spec fn spec_assign_orders(
    los: Seq<LotOrder>,
    item: Seq<char>,
    ot: PlannedOrderType,
    next: int,
) -> Result<Seq<KOrderV>, KErrV>
    decreases los.len(),
{
    if los.len() == 0 {
        Ok(Seq::empty())
    } else if next >= u64::MAX {
        Err(KErrV::IdRange)
    } else {
        let o = KOrderV {
            id: next as u64,
            item: item,
            quantity: los[0].quantity,
            required_date: los[0].required_date,
            order_date: los[0].order_date,
            order_type: ot,
        };
        match spec_assign_orders(los.drop_first(), item, ot, next + 1) {
            Err(e) => Err(e),
            Ok(rest) => Ok(seq![o] + rest),
        }
    }
}

/// The kernel's determination of one planned order.
pub open spec fn spec_korder_of(o: PlannedOrder) -> KOrderV {
    KOrderV {
        id: o.id,
        item: o.component_id@,
        quantity: o.quantity@,
        required_date: o.required_date@,
        order_date: o.order_date@,
        order_type: o.order_type,
    }
}

/// The determined image of realised orders.
pub open spec fn spec_korders_of(orders: Seq<PlannedOrder>) -> Seq<KOrderV> {
    orders.map_values(|o: PlannedOrder| spec_korder_of(o))
}

/// One item's netting and lot sizing: its configuration, or its
/// absence; nothing for an item withheld from planning; otherwise the
/// policy's orders over the item's axis.  The configuration found is
/// returned with the orders.
pub open spec fn spec_component_mrp(
    cfgs: Seq<MrpConfig>,
    cal: WorkCalendar,
    item: Seq<char>,
    dem: Seq<DemandView>,
    sup: Seq<SupplyView>,
    initial: int,
    base: Seq<int>,
) -> Result<(Seq<LotOrder>, MrpConfig), KErrV> {
    match spec_config_of_item(cfgs, item, 0) {
        None => Err(KErrV::ConfigMissing(item)),
        Some(cfg) => if !cfg.mrp_enabled {
            Ok((Seq::empty(), cfg))
        } else {
            let axis = spec_component_axis(base, dem, sup);
            if !spec_netting_fits(
                dem,
                sup,
                initial,
                cfg.safety_stock@,
                axis,
                cfg.allow_negative_inventory,
            ) {
                Err(KErrV::NettingRange)
            } else {
                let nets = spec_nets_of(
                    dem,
                    sup,
                    initial,
                    cfg.safety_stock@,
                    axis,
                    cfg.allow_negative_inventory,
                );
                match spec_apply_lot_sizing(nets, cfg, cal) {
                    Err(e) => Err(KErrV::Lot(e)),
                    Ok(los) => Ok((los, cfg)),
                }
            }
        },
    }
}

/// The kernel's running state: orders so far, all demands observed so
/// far (independent and dependent), warnings, and the next identifier.
pub struct KStateV {
    pub orders: Seq<KOrderV>,
    pub all_demands: Seq<DemandView>,
    pub warnings: Seq<KWarnV>,
    pub next: int,
}

/// One item's whole planning step.
pub open spec fn spec_plan_item(
    bom: BomGraph,
    cfgs: Seq<MrpConfig>,
    cal: WorkCalendar,
    svs: Seq<SupplyView>,
    invs: Seq<InventoryView>,
    base: Seq<int>,
    st: KStateV,
    item: Seq<char>,
) -> Result<KStateV, KErrV> {
    let dem = spec_demands_of_item(st.all_demands, item, 0);
    if dem.len() == 0 {
        Ok(st)
    } else {
        let sup = spec_supplies_of_item(svs, item, 0);
        let initial = spec_available_of_item(invs, item, 0);
        match spec_component_mrp(cfgs, cal, item, dem, sup, initial, base) {
            Err(e) => Err(e),
            Ok((los, cfg)) => match spec_assign_orders(
                los,
                item,
                spec_order_type(cfg.procurement_type),
                st.next,
            ) {
                Err(e) => Err(e),
                Ok(kos) => match spec_explode_orders(bom, item, kos, 0) {
                    Err(e) => Err(e),
                    Ok(children) => Ok(
                        KStateV {
                            orders: st.orders + kos,
                            all_demands: st.all_demands + children,
                            warnings: if kos.len() > 0 && bom.spec_find_node(item) is None {
                                st.warnings.push(
                                    KWarnV { item: item, severity: WarningSeverity::Info },
                                )
                            } else {
                                st.warnings
                            },
                            next: st.next + kos.len(),
                        },
                    ),
                },
            },
        }
    }
}

/// The items planned one after the other, from index `i`.
pub open spec fn spec_process_items(
    bom: BomGraph,
    cfgs: Seq<MrpConfig>,
    cal: WorkCalendar,
    svs: Seq<SupplyView>,
    invs: Seq<InventoryView>,
    base: Seq<int>,
    items: Seq<Seq<char>>,
    i: int,
    st: KStateV,
) -> Result<KStateV, KErrV>
    decreases items.len() - i,
{
    if i < 0 || i >= items.len() {
        Ok(st)
    } else {
        match spec_plan_item(bom, cfgs, cal, svs, invs, base, st, items[i]) {
            Err(e) => Err(e),
            Ok(st2) => spec_process_items(bom, cfgs, cal, svs, invs, base, items, i + 1, st2),
        }
    }
}

/// Whether an item sequence holds `x` at or past index `i`.
pub open spec fn spec_items_contain(s: Seq<Seq<char>>, x: Seq<char>, i: int) -> bool
    decreases s.len() - i,
{
    if i < 0 || i >= s.len() {
        false
    } else if s[i] == x {
        true
    } else {
        spec_items_contain(s, x, i + 1)
    }
}

/// The distinct items the demands name, in first appearance order.
pub open spec fn spec_collect_items(ds: Seq<DemandView>, i: int, acc: Seq<Seq<char>>) -> Seq<
    Seq<char>,
>
    decreases ds.len() - i,
{
    if i < 0 || i >= ds.len() {
        acc
    } else if spec_items_contain(acc, ds[i].component_id, 0) {
        spec_collect_items(ds, i + 1, acc)
    } else {
        spec_collect_items(ds, i + 1, acc.push(ds[i].component_id))
    }
}

/// One sweep over the graph's edges: the child of every edge whose
/// parent is already listed is appended, once.
pub open spec fn spec_sweep_edges(bom: BomGraph, acc: Seq<Seq<char>>, j: int) -> Seq<Seq<char>>
    decreases bom.edges@.len() - j,
{
    if j < 0 || j >= bom.edges@.len() {
        acc
    } else {
        let e = bom.edges@[j];
        let p = bom.nodes@[e.parent as int]@;
        let c = bom.nodes@[e.child as int]@;
        if spec_items_contain(acc, p, 0) && !spec_items_contain(acc, c, 0) {
            spec_sweep_edges(bom, acc.push(c), j + 1)
        } else {
            spec_sweep_edges(bom, acc, j + 1)
        }
    }
}

/// Sweeps repeated until nothing is added or the fuel runs out: the
/// items reachable from the initial ones through the graph.
pub open spec fn spec_closure_items(bom: BomGraph, acc: Seq<Seq<char>>, fuel: nat) -> Seq<
    Seq<char>,
>
    decreases fuel,
{
    if fuel == 0 {
        acc
    } else {
        let acc2 = spec_sweep_edges(bom, acc, 0);
        if acc2.len() == acc.len() {
            acc
        } else {
            spec_closure_items(bom, acc2, (fuel - 1) as nat)
        }
    }
}

/// Whether some pending item is a parent of `x`.
pub open spec fn spec_has_pending_pred(
    bom: BomGraph,
    pending: Seq<Seq<char>>,
    x: Seq<char>,
    k: int,
) -> bool
    decreases pending.len() - k,
{
    if k < 0 || k >= pending.len() {
        false
    } else if bom.spec_has_edge(pending[k], x) {
        true
    } else {
        spec_has_pending_pred(bom, pending, x, k + 1)
    }
}

/// The first pending item with no pending parent, from index `j`.
pub open spec fn spec_find_ready(bom: BomGraph, pending: Seq<Seq<char>>, j: int) -> Option<int>
    decreases pending.len() - j,
{
    if j < 0 || j >= pending.len() {
        None
    } else if !spec_has_pending_pred(bom, pending, pending[j], 0) {
        Some(j)
    } else {
        spec_find_ready(bom, pending, j + 1)
    }
}

/// A ready scan that reports a hit reports an index of the list.
pub proof fn lemma_find_ready_bounds(bom: BomGraph, pending: Seq<Seq<char>>, j: int, h: int)
    requires
        0 <= j,
        spec_find_ready(bom, pending, j) == Some(h),
    ensures
        j <= h < pending.len(),
    decreases pending.len() - j,
{
    if j < pending.len() && spec_has_pending_pred(bom, pending, pending[j], 0) {
        lemma_find_ready_bounds(bom, pending, j + 1, h);
    }
}

/// The topological order of the pending items, parents first: always
/// the first ready item next; `None` exactly when the items left all
/// have pending parents, which witnesses a cycle.
pub open spec fn spec_topo_order(bom: BomGraph, pending: Seq<Seq<char>>) -> Option<Seq<Seq<char>>>
    decreases pending.len(),
    via spec_topo_order_decreases
{
    if pending.len() == 0 {
        Some(Seq::empty())
    } else {
        match spec_find_ready(bom, pending, 0) {
            None => None,
            Some(j) => match spec_topo_order(bom, pending.remove(j)) {
                None => None,
                Some(rest) => Some(seq![pending[j]] + rest),
            },
        }
    }
}

#[via_fn]
proof fn spec_topo_order_decreases(bom: BomGraph, pending: Seq<Seq<char>>) {
    if pending.len() > 0 {
        match spec_find_ready(bom, pending, 0) {
            Some(j) => {
                lemma_find_ready_bounds(bom, pending, 0, j);
            },
            None => {},
        }
    }
}

/// The view sequence of an item list.
pub open spec fn spec_item_views(s: Seq<String>) -> Seq<Seq<char>> {
    s.map_values(|x: String| x@)
}

/// The view sequence of an inventory list.
pub open spec fn spec_inventory_views(s: Seq<Inventory>) -> Seq<InventoryView> {
    s.map_values(|x: Inventory| x@)
}

/// The whole determination of one planning run, before pegging: the
/// orders, all demands observed, the warnings and the error, if any.
pub open spec fn spec_calculate_plan(
    bom: BomGraph,
    cfgs: Seq<MrpConfig>,
    cal: WorkCalendar,
    dvs: Seq<DemandView>,
    svs: Seq<SupplyView>,
    invs: Seq<InventoryView>,
) -> Result<KStateV, KErrV> {
    let base = spec_axis_days(dvs, svs);
    let roots = spec_collect_items(dvs, 0, Seq::empty());
    let closure = spec_closure_items(bom, roots, bom.nodes@.len());
    match spec_topo_order(bom, closure) {
        None => Err(KErrV::Cycle),
        Some(sorted) => spec_process_items(
            bom,
            cfgs,
            cal,
            svs,
            invs,
            base,
            sorted,
            0,
            KStateV { orders: Seq::empty(), all_demands: dvs, warnings: Seq::empty(), next: 1 },
        ),
    }
}


/// The largest configured planning horizon, ninety days where nothing
/// is configured.
pub open spec fn spec_max_horizon(cfgs: Seq<MrpConfig>, i: int) -> int
    decreases cfgs.len() - i,
{
    if i < 0 || i >= cfgs.len() {
        90
    } else {
        let rest = spec_max_horizon(cfgs, i + 1);
        if cfgs[i].planning_horizon_days as int > rest {
            cfgs[i].planning_horizon_days as int
        } else {
            rest
        }
    }
}

/// The pegging warnings: one per order that no demand was matched to.
pub open spec fn spec_peg_warnings(
    orders: Seq<KOrderV>,
    all_demands: Seq<DemandView>,
    k: int,
) -> Seq<KWarnV>
    decreases orders.len() - k,
{
    if k < 0 || k >= orders.len() {
        Seq::empty()
    } else {
        let o = orders[k];
        let head: Seq<KWarnV> = if spec_trace_from(
            o.item,
            o.required_date,
            all_demands,
            true,
            0,
            o.quantity,
        ).len() == 0 {
            seq![KWarnV { item: o.item, severity: WarningSeverity::Warning }]
        } else {
            Seq::empty()
        };
        head + spec_peg_warnings(orders, all_demands, k + 1)
    }
}

/// The determined image of realised warnings.
pub open spec fn spec_warn_views(ws: Seq<MrpWarning>) -> Seq<KWarnV> {
    ws.map_values(|w: MrpWarning| KWarnV { item: w.component_id@, severity: w.severity })
}

/// Appends the demands of one item, in order, to `out`.
fn append_item_demands(out: &mut Vec<Demand>, src: &Vec<Demand>, item: &String)
    ensures
        spec_demand_views(final(out)@) == spec_demand_views(old(out)@) + spec_demands_of_item(
            spec_demand_views(src@),
            item@,
            0,
        ),
        final(out)@.len() >= old(out)@.len(),
        forall|k: int| 0 <= k < old(out)@.len() ==> final(out)@[k] == old(out)@[k],
        forall|k: int|
            old(out)@.len() <= k < final(out)@.len() ==> exists|j: int|
                0 <= j < src@.len() && #[trigger] final(out)@[k] == src@[j],
{
    let ghost dv = spec_demand_views(src@);
    let mut i: usize = 0;
    while i < src.len()
        invariant
            0 <= i <= src@.len(),
            dv == spec_demand_views(src@),
            spec_demand_views(out@) + spec_demands_of_item(dv, item@, i as int)
                == spec_demand_views(old(out)@) + spec_demands_of_item(dv, item@, 0),
            out@.len() >= old(out)@.len(),
            forall|k: int| 0 <= k < old(out)@.len() ==> out@[k] == old(out)@[k],
            forall|k: int|
                old(out)@.len() <= k < out@.len() ==> exists|j: int|
                    0 <= j < src@.len() && #[trigger] out@[k] == src@[j],
        decreases src@.len() - i,
    {
        proof {
            assert(dv[i as int] == src@[i as int]@);
        }
        if src[i].component_id.eq(item) {
            let ghost before = out@;
            out.push(src[i].clone_demand());
            proof {
                assert(out@[before.len() as int] == src@[i as int]);
                assert(spec_demand_views(out@) =~= spec_demand_views(before) + seq![
                    dv[i as int],
                ]);
                assert(spec_demand_views(before) + (seq![dv[i as int]] + spec_demands_of_item(
                    dv,
                    item@,
                    i + 1,
                )) =~= (spec_demand_views(before) + seq![dv[i as int]]) + spec_demands_of_item(
                    dv,
                    item@,
                    i + 1,
                ));
            }
        }
        i += 1;
    }
    proof {
        assert(spec_demand_views(out@) + Seq::<DemandView>::empty() =~= spec_demand_views(out@));
        assert(spec_demand_views(old(out)@) + spec_demands_of_item(dv, item@, 0)
            =~= spec_demand_views(out@));
    }
}

/// The supplies of one item, in order.
fn supplies_of_item(src: &Vec<Supply>, item: &String) -> (r: Vec<Supply>)
    ensures
        spec_supply_views(r@) == spec_supplies_of_item(spec_supply_views(src@), item@, 0),
        forall|k: int|
            0 <= k < r@.len() ==> exists|j: int| 0 <= j < src@.len() && #[trigger] r@[k] == src@[j],
{
    let ghost sv = spec_supply_views(src@);
    let mut out: Vec<Supply> = Vec::new();
    let mut i: usize = 0;
    while i < src.len()
        invariant
            0 <= i <= src@.len(),
            sv == spec_supply_views(src@),
            spec_supply_views(out@) + spec_supplies_of_item(sv, item@, i as int)
                == spec_supplies_of_item(sv, item@, 0),
            forall|k: int|
                0 <= k < out@.len() ==> exists|j: int| 0 <= j < src@.len() && #[trigger] out@[k]
                    == src@[j],
        decreases src@.len() - i,
    {
        proof {
            assert(sv[i as int] == src@[i as int]@);
            assert(spec_supply_views(out@).len() == out@.len());
        }
        if src[i].component_id.eq(item) {
            let ghost before = out@;
            out.push(src[i].clone_supply());
            proof {
                assert(out@[before.len() as int] == src@[i as int]);
                assert(spec_supply_views(out@) =~= spec_supply_views(before) + seq![
                    sv[i as int],
                ]);
                assert(spec_supply_views(before) + (seq![sv[i as int]] + spec_supplies_of_item(
                    sv,
                    item@,
                    i + 1,
                )) =~= (spec_supply_views(before) + seq![sv[i as int]]) + spec_supplies_of_item(
                    sv,
                    item@,
                    i + 1,
                ));
            }
        }
        i += 1;
    }
    proof {
        assert(spec_supply_views(out@) + Seq::<SupplyView>::empty() =~= spec_supply_views(out@));
        assert(Seq::<SupplyView>::empty() + spec_supplies_of_item(sv, item@, 0)
            =~= spec_supplies_of_item(sv, item@, 0));
    }
    out
}

/// The available stock of one item.
fn available_of_item(invs: &Vec<Inventory>, item: &String) -> (r: Qty)
    ensures
        r@ == spec_available_of_item(spec_inventory_views(invs@), item@, 0),
{
    let ghost iv = spec_inventory_views(invs@);
    let mut i: usize = 0;
    while i < invs.len()
        invariant
            0 <= i <= invs@.len(),
            iv == spec_inventory_views(invs@),
            spec_available_of_item(iv, item@, 0) == spec_available_of_item(iv, item@, i as int),
        decreases invs@.len() - i,
    {
        proof {
            assert(iv[i as int] == invs@[i as int]@);
        }
        if invs[i].component_id.eq(item) {
            return invs[i].available_qty;
        }
        i += 1;
    }
    Qty::zero()
}

/// The index of one item's configuration.
fn config_index_of(cfgs: &Vec<MrpConfig>, item: &String) -> (r: Option<usize>)
    ensures
        match r {
            Some(k) => k < cfgs@.len() && spec_config_of_item(cfgs@, item@, 0) == Some(
                cfgs@[k as int],
            ),
            None => spec_config_of_item(cfgs@, item@, 0) is None,
        },
{
    let mut i: usize = 0;
    while i < cfgs.len()
        invariant
            0 <= i <= cfgs@.len(),
            spec_config_of_item(cfgs@, item@, 0) == spec_config_of_item(cfgs@, item@, i as int),
        decreases cfgs@.len() - i,
    {
        if cfgs[i].component_id.eq(item) {
            return Some(i);
        }
        i += 1;
    }
    None
}

/// The item's axis: the base axis extended by its own event dates.
pub fn create_component_time_buckets(base: &Vec<Date>, demands: &Vec<Demand>, supplies: &Vec<Supply>) -> (r:
    Vec<Date>)
    requires
        crate::bucketing::spec_strictly_sorted(base@),
    ensures
        crate::bucketing::spec_strictly_sorted(r@),
        spec_day_views(r@) == spec_component_axis(
            spec_day_views(base@),
            spec_demand_views(demands@),
            spec_supply_views(supplies@),
        ),
{
    let ghost dv = spec_demand_views(demands@);
    let ghost sv = spec_supply_views(supplies@);
    let mut axis: Vec<Date> = Vec::new();
    let mut b: usize = 0;
    while b < base.len()
        invariant
            0 <= b <= base@.len(),
            axis@ == base@.take(b as int),
            crate::bucketing::spec_strictly_sorted(base@),
        decreases base@.len() - b,
    {
        axis.push(base[b]);
        proof {
            assert(axis@ =~= base@.take(b + 1));
        }
        b += 1;
    }
    proof {
        assert(axis@ =~= base@);
    }
    let mut i: usize = 0;
    while i < demands.len()
        invariant
            0 <= i <= demands@.len(),
            dv == spec_demand_views(demands@),
            crate::bucketing::spec_strictly_sorted(axis@),
            crate::bucketing::spec_add_demand_days(spec_day_views(axis@), dv, i as int)
                == crate::bucketing::spec_add_demand_days(spec_day_views(base@), dv, 0),
        decreases demands@.len() - i,
    {
        proof {
            assert(dv[i as int] == demands@[i as int]@);
        }
        insert_sorted_unique(&mut axis, demands[i].required_date);
        i += 1;
    }
    let mut k: usize = 0;
    while k < supplies.len()
        invariant
            0 <= k <= supplies@.len(),
            sv == spec_supply_views(supplies@),
            crate::bucketing::spec_strictly_sorted(axis@),
            crate::bucketing::spec_add_supply_days(spec_day_views(axis@), sv, k as int)
                == spec_component_axis(spec_day_views(base@), dv, sv),
        decreases supplies@.len() - k,
    {
        proof {
            assert(sv[k as int] == supplies@[k as int]@);
        }
        insert_sorted_unique(&mut axis, supplies[k].available_date);
        k += 1;
    }
    axis
}

/// Appends the decimal digits of `n`.
fn push_digits(s: &mut String, n: u64)
    ensures
        final(s)@ == old(s)@ + spec_u64_digits(n as int),
    decreases n,
{
    if n >= 10 {
        push_digits(s, n / 10);
    }
    let d = n % 10;
    let digit: &str = if d == 0 {
        "0"
    } else if d == 1 {
        "1"
    } else if d == 2 {
        "2"
    } else if d == 3 {
        "3"
    } else if d == 4 {
        "4"
    } else if d == 5 {
        "5"
    } else if d == 6 {
        "6"
    } else if d == 7 {
        "7"
    } else if d == 8 {
        "8"
    } else {
        "9"
    };
    proof {
        reveal_strlit("0");
        reveal_strlit("1");
        reveal_strlit("2");
        reveal_strlit("3");
        reveal_strlit("4");
        reveal_strlit("5");
        reveal_strlit("6");
        reveal_strlit("7");
        reveal_strlit("8");
        reveal_strlit("9");
        assert(digit@ =~= seq![spec_digit_char(n as int % 10)]);
        if n < 10 {
            assert(spec_u64_digits(n as int) =~= seq![spec_digit_char(n as int)]);
        }
    }
    s.append(digit);
    proof {
        if n >= 10 {
            assert(s@ =~= old(s)@ + spec_u64_digits(n as int / 10).push(
                spec_digit_char(n as int % 10),
            ));
        } else {
            assert(s@ =~= old(s)@ + spec_u64_digits(n as int));
        }
    }
}

/// The parent reference of a dependent demand.
fn make_source_ref(item: &String, oid: u64) -> (r: String)
    ensures
        r@ == spec_source_ref(item@, oid),
{
    let mut s = item.clone();
    proof {
        reveal_strlit(":");
    }
    s.append(":");
    push_digits(&mut s, oid);
    proof {
        assert(s@ =~= item@ + seq![':'] + spec_u64_digits(oid as int));
    }
    s
}


/// The product of two machine-word quantities stays far inside the
/// wide intermediate range.
proof fn lemma_mul_i64_range(a: int, b: int)
    requires
        -0x8000_0000_0000_0000 <= a < 0x8000_0000_0000_0000,
        -0x8000_0000_0000_0000 <= b < 0x8000_0000_0000_0000,
    ensures
        -0x4000_0000_0000_0000_0000_0000_0000_0000 <= a * b
            <= 0x4000_0000_0000_0000_0000_0000_0000_0000,
{
    let m = 0x8000_0000_0000_0000int;
    let aa = if a >= 0 {
        a
    } else {
        -a
    };
    let bb = if b >= 0 {
        b
    } else {
        -b
    };
    vstd::arithmetic::mul::lemma_mul_upper_bound(aa, m, bb, m);
    assert(aa * bb <= m * m);
    assert(a * b == aa * bb || a * b == -(aa * bb)) by (nonlinear_arith)
        requires
            aa == if a >= 0 {
                a
            } else {
                -a
            },
            bb == if b >= 0 {
                b
            } else {
                -b
            },
    {
    }
    assert(0 <= aa * bb) by (nonlinear_arith)
        requires
            0 <= aa,
            0 <= bb,
    {
    }
}

/// The dependent demands one order casts through the graph's edges.
fn explode_one(bom: &BomGraph, item: &String, order: &PlannedOrder) -> (r: Result<
    Vec<Demand>,
    MrpError,
>)
    requires
        bom.wf(),
    ensures
        match spec_explode_order(*bom, item@, spec_korder_of(*order), 0) {
            Ok(cds) => r matches Ok(v) && spec_demand_views(v@) == cds,
            Err(e) => r matches Err(me) && spec_kerr_matches(e, me),
        },
{
    let ghost ko = spec_korder_of(*order);
    let ghost full = spec_explode_order(*bom, item@, ko, 0);
    let mut out: Vec<Demand> = Vec::new();
    let mut j: usize = 0;
    while j < bom.edges.len()
        invariant
            0 <= j <= bom.edges@.len(),
            bom.wf(),
            ko == spec_korder_of(*order),
            full == spec_explode_order(*bom, item@, ko, 0),
            match spec_explode_order(*bom, item@, ko, j as int) {
                Ok(rest) => full matches Ok(fl) && fl == spec_demand_views(out@) + rest,
                Err(e) => full == Err::<Seq<DemandView>, KErrV>(e),
            },
        decreases bom.edges@.len() - j,
    {
        let e = bom.edges[j];
        if bom.nodes[e.parent].eq(item) {
            proof {
                assert(fits_qty(order.quantity@));
                assert(fits_qty(e.quantity_per@));
                lemma_mul_i64_range(order.quantity@, e.quantity_per@);
            }
            let p: i128 = (order.quantity.units() as i128) * (e.quantity_per.units() as i128);
            let q: i128 = if p >= 0 {
                p / 10000
            } else {
                -((-p) / 10000)
            };
            if q < 0 || q > (i64::MAX as i128) {
                return Err(
                    MrpError::CalculationError(
                        String::from_str("dependent demand quantity out of range"),
                    ),
                );
            }
            let child_qty = Qty::from_units(q as i64);
            let child_name = bom.nodes[e.child].clone();
            let child = Demand::new(
                child_name,
                child_qty,
                order.order_date,
                DemandType::Dependent,
            ).with_source_ref(make_source_ref(item, order.id));
            proof {
                let cd = DemandView {
                    id: 0,
                    component_id: bom.nodes@[e.child as int]@,
                    quantity: q as int,
                    required_date: ko.order_date,
                    demand_type: DemandType::Dependent,
                    source_ref: Some(spec_source_ref(item@, ko.id)),
                    priority: 5,
                    plant_id: None,
                };
                assert(child@ == cd);
                assert(spec_demand_views(out@.push(child)) =~= spec_demand_views(out@).push(cd));
                if spec_explode_order(*bom, item@, ko, j + 1) is Ok {
                    let rest = spec_explode_order(*bom, item@, ko, j + 1)->Ok_0;
                    assert(spec_demand_views(out@) + (seq![cd] + rest) =~= spec_demand_views(
                        out@,
                    ).push(cd) + rest);
                }
            }
            out.push(child);
        }
        j += 1;
    }
    proof {
        assert(spec_demand_views(out@) + Seq::<DemandView>::empty() =~= spec_demand_views(out@));
    }
    Ok(out)
}

/// The dependent demands a batch of orders on one item casts.
fn collect_child_demands(bom: &BomGraph, item: &String, orders: &Vec<PlannedOrder>) -> (r: Result<
    Vec<Demand>,
    MrpError,
>)
    requires
        bom.wf(),
    ensures
        match spec_explode_orders(*bom, item@, spec_korders_of(orders@), 0) {
            Ok(cds) => r matches Ok(v) && spec_demand_views(v@) == cds,
            Err(e) => r matches Err(me) && spec_kerr_matches(e, me),
        },
{
    let ghost kos = spec_korders_of(orders@);
    let ghost full = spec_explode_orders(*bom, item@, kos, 0);
    let mut out: Vec<Demand> = Vec::new();
    let mut k: usize = 0;
    while k < orders.len()
        invariant
            0 <= k <= orders@.len(),
            bom.wf(),
            kos == spec_korders_of(orders@),
            full == spec_explode_orders(*bom, item@, kos, 0),
            match spec_explode_orders(*bom, item@, kos, k as int) {
                Ok(rest) => full matches Ok(fl) && fl == spec_demand_views(out@) + rest,
                Err(e) => full == Err::<Seq<DemandView>, KErrV>(e),
            },
        decreases orders@.len() - k,
    {
        proof {
            assert(kos[k as int] == spec_korder_of(orders@[k as int]));
        }
        let mut cds = match explode_one(bom, item, &orders[k]) {
            Ok(v) => v,
            Err(me) => {
                return Err(me);
            },
        };
        proof {
            let head = spec_explode_order(*bom, item@, kos[k as int], 0)->Ok_0;
            if spec_explode_orders(*bom, item@, kos, k + 1) is Ok {
                let rest = spec_explode_orders(*bom, item@, kos, k + 1)->Ok_0;
                assert(spec_demand_views(out@) + (head + rest) =~= (spec_demand_views(out@) + head)
                    + rest);
            }
            assert(spec_demand_views(out@ + cds@) =~= spec_demand_views(out@) + spec_demand_views(
                cds@,
            ));
        }
        out.append(&mut cds);
        k += 1;
    }
    proof {
        assert(spec_demand_views(out@) + Seq::<DemandView>::empty() =~= spec_demand_views(out@));
    }
    Ok(out)
}

/// Identifiers handed out in sequence from `next` give equal orders
/// with those identifiers.
proof fn lemma_assign_orders_ok(los: Seq<LotOrder>, item: Seq<char>, ot: PlannedOrderType, next: int)
    requires
        1 <= next,
        next + los.len() <= u64::MAX,
    ensures
        spec_assign_orders(los, item, ot, next) matches Ok(kos) && kos.len() == los.len()
            && forall|k: int|
            0 <= k < los.len() ==> (#[trigger] (spec_assign_orders(los, item, ot, next)->Ok_0)[k])
                == (KOrderV {
                id: (next + k) as u64,
                item: item,
                quantity: los[k].quantity,
                required_date: los[k].required_date,
                order_date: los[k].order_date,
                order_type: ot,
            }),
    decreases los.len(),
{
    if los.len() > 0 {
        lemma_assign_orders_ok(los.drop_first(), item, ot, next + 1);
        let kos = spec_assign_orders(los, item, ot, next)->Ok_0;
        let rest = spec_assign_orders(los.drop_first(), item, ot, next + 1)->Ok_0;
        assert forall|k: int| 0 <= k < los.len() implies (#[trigger] kos[k]) == (KOrderV {
            id: (next + k) as u64,
            item: item,
            quantity: los[k].quantity,
            required_date: los[k].required_date,
            order_date: los[k].order_date,
            order_type: ot,
        }) by {
            if k > 0 {
                assert(kos[k] == rest[k - 1]);
                assert(los.drop_first()[k - 1] == los[k]);
            }
        }
    }
}

/// When the identifiers would run out, handing them out fails.
proof fn lemma_assign_orders_err(
    los: Seq<LotOrder>,
    item: Seq<char>,
    ot: PlannedOrderType,
    next: int,
)
    requires
        1 <= next <= u64::MAX,
        next + los.len() > u64::MAX,
        los.len() > 0,
    ensures
        spec_assign_orders(los, item, ot, next) == Err::<Seq<KOrderV>, KErrV>(KErrV::IdRange),
    decreases los.len(),
{
    if next < u64::MAX {
        lemma_assign_orders_err(los.drop_first(), item, ot, next + 1);
    }
}

/// Hands identifiers `next_id` onward to a batch of orders; fails when
/// the identifiers would run out.
fn assign_order_ids(orders: Vec<PlannedOrder>, next_id: u64) -> (r: Result<
    (Vec<PlannedOrder>, u64),
    MrpError,
>)
    requires
        1 <= next_id,
    ensures
        next_id as int + orders@.len() <= u64::MAX ==> (r matches Ok(p) && p.0@.len()
            == orders@.len() && p.1 as int == next_id as int + orders@.len() && forall|k: int|
            0 <= k < orders@.len() ==> (#[trigger] p.0@[k]) == (PlannedOrder {
                id: (next_id + k) as u64,
                ..orders@[k]
            })),
        next_id as int + orders@.len() > u64::MAX ==> (r matches Err(me)
            && me is CalculationError),
{
    let total = orders.len();
    if total as u64 > u64::MAX - next_id {
        return Err(
            MrpError::CalculationError(String::from_str("order identifiers exhausted")),
        );
    }
    let mut rest = orders;
    let mut out: Vec<PlannedOrder> = Vec::new();
    let mut next = next_id;
    while rest.len() > 0
        invariant
            out@.len() + rest@.len() == total,
            next as int == next_id as int + out@.len(),
            next_id as int + total <= u64::MAX,
            forall|k: int|
                0 <= k < out@.len() ==> (#[trigger] out@[k]) == (PlannedOrder {
                    id: (next_id + k) as u64,
                    ..orders@[k]
                }),
            forall|k: int| 0 <= k < rest@.len() ==> rest@[k] == orders@[out@.len() + k],
        decreases rest@.len(),
    {
        let mut o = rest.remove(0);
        o.id = next;
        out.push(o);
        next = next + 1;
    }
    Ok((out, next))
}


/// Whether an item list holds `x`.
fn items_contain(items: &Vec<String>, x: &String) -> (r: bool)
    ensures
        r == spec_items_contain(spec_item_views(items@), x@, 0),
{
    let ghost iv = spec_item_views(items@);
    let mut i: usize = 0;
    while i < items.len()
        invariant
            0 <= i <= items@.len(),
            iv == spec_item_views(items@),
            spec_items_contain(iv, x@, 0) == spec_items_contain(iv, x@, i as int),
        decreases items@.len() - i,
    {
        proof {
            assert(iv[i as int] == items@[i as int]@);
        }
        if items[i].eq(x) {
            return true;
        }
        i += 1;
    }
    false
}

/// The distinct items the demands name, in first appearance order.
fn collect_items(demands: &Vec<Demand>) -> (r: Vec<String>)
    ensures
        spec_item_views(r@) == spec_collect_items(spec_demand_views(demands@), 0, Seq::empty()),
{
    let ghost dv = spec_demand_views(demands@);
    let mut items: Vec<String> = Vec::new();
    proof {
        assert(spec_item_views(items@) =~= Seq::<Seq<char>>::empty());
    }
    let mut i: usize = 0;
    while i < demands.len()
        invariant
            0 <= i <= demands@.len(),
            dv == spec_demand_views(demands@),
            spec_collect_items(dv, i as int, spec_item_views(items@)) == spec_collect_items(
                dv,
                0,
                Seq::empty(),
            ),
        decreases demands@.len() - i,
    {
        proof {
            assert(dv[i as int] == demands@[i as int]@);
        }
        if !items_contain(&items, &demands[i].component_id) {
            let ghost before = items@;
            items.push(demands[i].component_id.clone());
            proof {
                assert(spec_item_views(items@) =~= spec_item_views(before).push(
                    dv[i as int].component_id,
                ));
            }
        }
        i += 1;
    }
    items
}

/// One sweep appends to the list, changing nothing already listed.
proof fn lemma_sweep_prefix(bom: BomGraph, acc: Seq<Seq<char>>, j: int)
    ensures
        spec_sweep_edges(bom, acc, j).len() >= acc.len(),
        forall|k: int| 0 <= k < acc.len() ==> #[trigger] spec_sweep_edges(bom, acc, j)[k] == acc[k],
    decreases bom.edges@.len() - j,
{
    if 0 <= j < bom.edges@.len() {
        let e = bom.edges@[j];
        let p = bom.nodes@[e.parent as int]@;
        let c = bom.nodes@[e.child as int]@;
        if spec_items_contain(acc, p, 0) && !spec_items_contain(acc, c, 0) {
            lemma_sweep_prefix(bom, acc.push(c), j + 1);
        } else {
            lemma_sweep_prefix(bom, acc, j + 1);
        }
    }
}

/// One sweep over the graph's edges, appending newly reachable items.
fn sweep_reachable(bom: &BomGraph, items: &mut Vec<String>)
    requires
        bom.wf(),
    ensures
        spec_item_views(final(items)@) == spec_sweep_edges(*bom, spec_item_views(old(items)@), 0),
        final(items)@.len() >= old(items)@.len(),
{
    let ghost start = spec_item_views(old(items)@);
    let mut j: usize = 0;
    while j < bom.edges.len()
        invariant
            0 <= j <= bom.edges@.len(),
            bom.wf(),
            items@.len() >= old(items)@.len(),
            spec_sweep_edges(*bom, spec_item_views(items@), j as int) == spec_sweep_edges(
                *bom,
                start,
                0,
            ),
        decreases bom.edges@.len() - j,
    {
        let e = bom.edges[j];
        if items_contain(items, &bom.nodes[e.parent]) && !items_contain(items, &bom.nodes[e.child])
            {
            let ghost before = items@;
            items.push(bom.nodes[e.child].clone());
            proof {
                assert(spec_item_views(items@) =~= spec_item_views(before).push(
                    bom.nodes@[e.child as int]@,
                ));
            }
        }
        j += 1;
    }
}

/// The items reachable from the initial ones, by repeated sweeps.
fn closure_items(bom: &BomGraph, roots: Vec<String>) -> (r: Vec<String>)
    requires
        bom.wf(),
    ensures
        spec_item_views(r@) == spec_closure_items(*bom, spec_item_views(roots@), bom.nodes@.len()),
{
    let ghost roots0 = spec_item_views(roots@);
    let n = bom.node_count();
    let mut items = roots;
    let mut f: usize = 0;
    while f < n
        invariant
            0 <= f <= n,
            n == bom.nodes@.len(),
            bom.wf(),
            spec_closure_items(*bom, spec_item_views(items@), (n - f) as nat) == spec_closure_items(
                *bom,
                roots0,
                n as nat,
            ),
        ensures
            spec_item_views(items@) == spec_closure_items(*bom, roots0, n as nat),
        decreases n - f,
    {
        let before_len = items.len();
        let ghost acc = spec_item_views(items@);
        sweep_reachable(bom, &mut items);
        if items.len() == before_len {
            proof {
                lemma_sweep_prefix(*bom, acc, 0);
                assert(spec_item_views(items@) =~= acc);
            }
            break ;
        }
        proof {
            assert(spec_item_views(items@).len() != acc.len());
        }
        f += 1;
    }
    items
}

/// Whether some pending item is a parent of `x`.
fn has_pending_pred(bom: &BomGraph, pending: &Vec<String>, x: &String) -> (r: bool)
    requires
        bom.wf(),
    ensures
        r == spec_has_pending_pred(*bom, spec_item_views(pending@), x@, 0),
{
    let ghost pv = spec_item_views(pending@);
    let mut k: usize = 0;
    while k < pending.len()
        invariant
            0 <= k <= pending@.len(),
            bom.wf(),
            pv == spec_item_views(pending@),
            spec_has_pending_pred(*bom, pv, x@, 0) == spec_has_pending_pred(
                *bom,
                pv,
                x@,
                k as int,
            ),
        decreases pending@.len() - k,
    {
        proof {
            assert(pv[k as int] == pending@[k as int]@);
        }
        if has_edge(bom, &pending[k], x) {
            return true;
        }
        k += 1;
    }
    false
}

/// Whether the graph has an edge from item `p` to item `c`.
fn has_edge(bom: &BomGraph, p: &String, c: &String) -> (r: bool)
    requires
        bom.wf(),
    ensures
        r == bom.spec_has_edge(p@, c@),
{
    let mut i: usize = 0;
    while i < bom.edges.len()
        invariant
            0 <= i <= bom.edges@.len(),
            bom.wf(),
            forall|k: int|
                0 <= k < i ==> !(bom.nodes@[(#[trigger] bom.edges@[k]).parent as int]@ == p@
                    && bom.nodes@[bom.edges@[k].child as int]@ == c@),
        decreases bom.edges@.len() - i,
    {
        let e = bom.edges[i];
        if bom.nodes[e.parent].eq(p) && bom.nodes[e.child].eq(c) {
            return true;
        }
        i += 1;
    }
    proof {
        assert(!bom.spec_has_edge(p@, c@)) by {
            if bom.spec_has_edge(p@, c@) {
                let k = choose|k: int|
                    0 <= k < bom.edges@.len() && bom.nodes@[(#[trigger] bom.edges@[
                        k
                    ]).parent as int]@ == p@ && bom.nodes@[bom.edges@[k].child as int]@ == c@;
                assert(false);
            }
        }
    }
    false
}

/// The first pending item with no pending parent.
fn find_ready(bom: &BomGraph, pending: &Vec<String>) -> (r: Option<usize>)
    requires
        bom.wf(),
    ensures
        match r {
            Some(j) => j < pending@.len() && spec_find_ready(
                *bom,
                spec_item_views(pending@),
                0,
            ) == Some(j as int),
            None => spec_find_ready(*bom, spec_item_views(pending@), 0) is None,
        },
{
    let ghost pv = spec_item_views(pending@);
    let mut j: usize = 0;
    while j < pending.len()
        invariant
            0 <= j <= pending@.len(),
            bom.wf(),
            pv == spec_item_views(pending@),
            spec_find_ready(*bom, pv, 0) == spec_find_ready(*bom, pv, j as int),
        decreases pending@.len() - j,
    {
        proof {
            assert(pv[j as int] == pending@[j as int]@);
        }
        if !has_pending_pred(bom, pending, &pending[j]) {
            return Some(j);
        }
        j += 1;
    }
    None
}

/// The pending items in topological order, parents first; fails
/// exactly when the items left all keep pending parents: a cycle.
fn topo_order(bom: &BomGraph, pending: Vec<String>) -> (r: Result<Vec<String>, MrpError>)
    requires
        bom.wf(),
    ensures
        match spec_topo_order(*bom, spec_item_views(pending@)) {
            Some(s) => r matches Ok(v) && spec_item_views(v@) == s,
            None => r matches Err(me) && me is TopologicalSortError,
        },
{
    let ghost full = spec_topo_order(*bom, spec_item_views(pending@));
    let mut rest = pending;
    let mut out: Vec<String> = Vec::new();
    proof {
        assert(spec_item_views(out@) =~= Seq::<Seq<char>>::empty());
    }
    while rest.len() > 0
        invariant
            bom.wf(),
            full == spec_topo_order(*bom, spec_item_views(pending@)),
            match spec_topo_order(*bom, spec_item_views(rest@)) {
                Some(s) => full matches Some(f) && f == spec_item_views(out@) + s,
                None => full is None,
            },
        decreases rest@.len(),
    {
        let ghost rv = spec_item_views(rest@);
        let j = match find_ready(bom, &rest) {
            Some(j) => j,
            None => {
                return Err(
                    MrpError::TopologicalSortError(
                        String::from_str("the items to plan contain a dependency cycle"),
                    ),
                );
            },
        };
        let x = rest.remove(j);
        proof {
            assert(spec_item_views(rest@) =~= rv.remove(j as int));
            assert(x@ == rv[j as int]);
            match spec_topo_order(*bom, rv.remove(j as int)) {
                Some(srest) => {
                    assert(spec_topo_order(*bom, rv) == Some(seq![rv[j as int]] + srest));
                    assert(spec_item_views(out@.push(x)) =~= spec_item_views(out@).push(x@));
                    assert(spec_item_views(out@) + (seq![x@] + srest) =~= spec_item_views(
                        out@,
                    ).push(x@) + srest);
                },
                None => {
                    assert(spec_topo_order(*bom, rv) is None);
                },
            }
        }
        out.push(x);
    }
    proof {
        assert(spec_item_views(out@) + Seq::<Seq<char>>::empty() =~= spec_item_views(out@));
    }
    Ok(out)
}

/// Every dependent demand one order casts carries a non-negative
/// quantity, identifier zero and middle priority.
proof fn lemma_explode_order_shape(bom: BomGraph, item: Seq<char>, o: KOrderV, j: int)
    requires
        spec_explode_order(bom, item, o, j) is Ok,
    ensures
        forall|k: int|
            0 <= k < (spec_explode_order(bom, item, o, j)->Ok_0).len() ==> (#[trigger] (
            spec_explode_order(bom, item, o, j)->Ok_0)[k]).quantity >= 0,
    decreases bom.edges@.len() - j,
{
    if 0 <= j < bom.edges@.len() {
        let e = bom.edges@[j];
        if bom.nodes@[e.parent as int]@ == item {
            lemma_explode_order_shape(bom, item, o, j + 1);
        } else {
            lemma_explode_order_shape(bom, item, o, j + 1);
        }
    }
}

/// Every dependent demand a batch casts carries a non-negative
/// quantity.
proof fn lemma_explode_orders_shape(bom: BomGraph, item: Seq<char>, kos: Seq<KOrderV>, k: int)
    requires
        spec_explode_orders(bom, item, kos, k) is Ok,
    ensures
        forall|x: int|
            0 <= x < (spec_explode_orders(bom, item, kos, k)->Ok_0).len() ==> (#[trigger] (
            spec_explode_orders(bom, item, kos, k)->Ok_0)[x]).quantity >= 0,
    decreases kos.len() - k,
{
    if 0 <= k < kos.len() {
        lemma_explode_order_shape(bom, item, kos[k], 0);
        lemma_explode_orders_shape(bom, item, kos, k + 1);
    }
}


/// The planning kernel: a bill of materials, the per-item planning
/// parameters, and the working calendar.
pub struct MrpCalculator {
    /// The bill of materials consumed by explosion.
    pub bom_graph: BomGraph,
    /// The planning parameters, looked up by item.
    pub configs: Vec<MrpConfig>,
    /// The working calendar all date walking uses.
    pub calendar: WorkCalendar,
}

impl MrpCalculator {
    /// A kernel over the given graph, parameters and calendar.
    pub fn new(bom_graph: BomGraph, configs: Vec<MrpConfig>, calendar: WorkCalendar) -> (r:
        MrpCalculator)
        ensures
            r.bom_graph == bom_graph,
            r.configs == configs,
            r.calendar == calendar,
    {
        MrpCalculator { bom_graph, configs, calendar }
    }

    /// The working calendar.
    pub fn calendar(&self) -> (r: &WorkCalendar)
        ensures
            r == &self.calendar,
    {
        &self.calendar
    }

    /// The bill of materials.
    pub fn bom_graph(&self) -> (r: &BomGraph)
        ensures
            r == &self.bom_graph,
    {
        &self.bom_graph
    }

    /// The largest configured planning horizon.
    fn get_max_planning_horizon(&self) -> (r: u32)
        ensures
            r as int == spec_max_horizon(self.configs@, 0),
    {
        let mut horizon: u32 = 90;
        let n = self.configs.len();
        let mut i: usize = n;
        while i > 0
            invariant
                0 <= i <= n,
                n == self.configs@.len(),
                horizon as int == spec_max_horizon(self.configs@, i as int),
            decreases i,
        {
            i -= 1;
            if self.configs[i].planning_horizon_days > horizon {
                horizon = self.configs[i].planning_horizon_days;
            }
        }
        horizon
    }

    /// One item's netting and lot sizing over its own axis.
    fn calculate_component_mrp(
        &self,
        component_id: &String,
        component_demands: &Vec<Demand>,
        component_supplies: &Vec<Supply>,
        initial_inventory: Qty,
        base_axis: &Vec<Date>,
    ) -> (r: Result<ComponentMrpResult, MrpError>)
        requires
            forall|i: int|
                0 <= i < component_demands@.len() ==> component_demands@[i].quantity@ >= 0,
            forall|i: int|
                0 <= i < component_supplies@.len() ==> component_supplies@[i].quantity@ >= 0,
            crate::bucketing::spec_strictly_sorted(base_axis@),
        ensures
            match spec_component_mrp(
                self.configs@,
                self.calendar,
                component_id@,
                spec_demand_views(component_demands@),
                spec_supply_views(component_supplies@),
                initial_inventory@,
                spec_day_views(base_axis@),
            ) {
                Err(e) => r matches Err(me) && spec_kerr_matches(e, me),
                Ok((los, cfg)) => r matches Ok(c) && c.component_id@ == component_id@
                    && spec_orders_match(
                    c.planned_orders@,
                    los,
                    component_id@,
                    spec_order_type(cfg.procurement_type),
                ),
            },
    {
        let cfg_idx = match config_index_of(&self.configs, component_id) {
            Some(k) => k,
            None => {
                return Err(MrpError::ConfigNotFound(component_id.clone()));
            },
        };
        let config = &self.configs[cfg_idx];
        if !config.needs_mrp() {
            return Ok(
                ComponentMrpResult {
                    component_id: component_id.clone(),
                    planned_orders: Vec::new(),
                },
            );
        }
        let component_axis = create_component_time_buckets(base_axis, component_demands, component_supplies);
        let net_requirements = match NettingCalculator::calculate(
            component_demands,
            component_supplies,
            initial_inventory,
            config.safety_stock,
            &component_axis,
            config.allow_negative_inventory,
        ) {
            Ok(n) => n,
            Err(me) => {
                return Err(me);
            },
        };
        proof {
            let dem = spec_demand_views(component_demands@);
            let sup = spec_supply_views(component_supplies@);
            let axis = spec_day_views(component_axis@);
            assert(crate::netting::spec_net_views(net_requirements@) =~= spec_nets_of(
                dem,
                sup,
                initial_inventory@,
                config.safety_stock@,
                axis,
                config.allow_negative_inventory,
            ));
        }
        let planned_orders = match LotSizingCalculator::apply(
            component_id.as_str(),
            &net_requirements,
            config,
            &self.calendar,
        ) {
            Ok(o) => o,
            Err(me) => {
                return Err(me);
            },
        };
        Ok(ComponentMrpResult { component_id: component_id.clone(), planned_orders })
    }

    /// One planning run.  The items reachable from the demands are
    /// planned parents first; each item is netted, lot-sized and
    /// exploded; pegging then traces every order.  The outcome is a
    /// function of the inputs alone, pinned by `spec_calculate_plan`.
    pub fn calculate(
        &self,
        demands: Vec<Demand>,
        supplies: Vec<Supply>,
        inventories: Vec<Inventory>,
    ) -> (r: Result<MrpResult, MrpError>)
        requires
            self.bom_graph.wf(),
            forall|i: int| 0 <= i < demands@.len() ==> (#[trigger] demands@[i]).quantity@ >= 0,
            forall|i: int| 0 <= i < supplies@.len() ==> (#[trigger] supplies@[i]).quantity@ >= 0,
        ensures
            match spec_calculate_plan(
                self.bom_graph,
                self.configs@,
                self.calendar,
                spec_demand_views(demands@),
                spec_supply_views(supplies@),
                spec_inventory_views(inventories@),
            ) {
                Err(e) => r matches Err(me) && spec_kerr_matches(e, me),
                Ok(plan) => r matches Ok(res) && {
                    &&& spec_korders_of(res.planned_orders@) == plan.orders
                    &&& forall|k: int|
                        0 <= k < res.planned_orders@.len() ==> (#[trigger] res.planned_orders@[
                        k]).source_id is None && res.planned_orders@[k].pegging@.len() == 0
                            && res.planned_orders@[k].id as int == k + 1
                    &&& spec_warn_views(res.warnings@) == plan.warnings + spec_peg_warnings(
                        plan.orders,
                        plan.all_demands,
                        0,
                    )
                    &&& res.pegging@.dom().len() == plan.orders.len()
                    &&& forall|k: int|
                        0 <= k < plan.orders.len() ==> {
                            let o = #[trigger] plan.orders[k];
                            res.pegging@.contains_key(o.id) && spec_pegs_of(res.pegging@[o.id]@)
                                == spec_trace_from(
                                o.item,
                                o.required_date,
                                plan.all_demands,
                                true,
                                0,
                                o.quantity,
                            )
                        }
                    &&& res.calculation_time_ms is None
                },
            },
    {
        let ghost dvs = spec_demand_views(demands@);
        let ghost svs = spec_supply_views(supplies@);
        let ghost ivs = spec_inventory_views(inventories@);
        let ghost full = spec_calculate_plan(
            self.bom_graph,
            self.configs@,
            self.calendar,
            dvs,
            svs,
            ivs,
        );
        let planning_horizon = self.get_max_planning_horizon();
        let base_axis = BucketingCalculator::create_time_buckets(&demands, &supplies, planning_horizon);
        let roots = collect_items(&demands);
        let closure = closure_items(&self.bom_graph, roots);
        let sorted = match topo_order(&self.bom_graph, closure) {
            Ok(v) => v,
            Err(me) => {
                return Err(me);
            },
        };
        let ghost sv_items = spec_item_views(sorted@);
        let ghost base_days = spec_day_views(base_axis@);
        let mut all_demands = demands;
        let mut all_orders: Vec<PlannedOrder> = Vec::new();
        let mut warnings: Vec<MrpWarning> = Vec::new();
        let mut next_id: u64 = 1;
        let mut idx: usize = 0;
        proof {
            assert(spec_korders_of(all_orders@) =~= Seq::<KOrderV>::empty());
            assert(spec_warn_views(warnings@) =~= Seq::<KWarnV>::empty());
        }
        while idx < sorted.len()
            invariant
                0 <= idx <= sorted@.len(),
                self.bom_graph.wf(),
                sv_items == spec_item_views(sorted@),
                base_days == spec_day_views(base_axis@),
                crate::bucketing::spec_strictly_sorted(base_axis@),
                svs == spec_supply_views(supplies@),
                ivs == spec_inventory_views(inventories@),
                dvs == spec_demand_views(demands@),
                full == spec_calculate_plan(
                    self.bom_graph,
                    self.configs@,
                    self.calendar,
                    dvs,
                    svs,
                    ivs,
                ),
                forall|i: int|
                    0 <= i < all_demands@.len() ==> (#[trigger] all_demands@[i]).quantity@ >= 0,
                forall|i: int|
                    0 <= i < supplies@.len() ==> (#[trigger] supplies@[i]).quantity@ >= 0,
                forall|k: int|
                    0 <= k < all_orders@.len() ==> (#[trigger] all_orders@[k]).id as int == k + 1
                        && all_orders@[k].source_id is None && all_orders@[k].pegging@.len() == 0,
                next_id as int == all_orders@.len() + 1,
                1 <= next_id,
                spec_process_items(
                    self.bom_graph,
                    self.configs@,
                    self.calendar,
                    svs,
                    ivs,
                    base_days,
                    sv_items,
                    idx as int,
                    KStateV {
                        orders: spec_korders_of(all_orders@),
                        all_demands: spec_demand_views(all_demands@),
                        warnings: spec_warn_views(warnings@),
                        next: next_id as int,
                    },
                ) == full,
            decreases sorted@.len() - idx,
        {
            let ghost cur = KStateV {
                orders: spec_korders_of(all_orders@),
                all_demands: spec_demand_views(all_demands@),
                warnings: spec_warn_views(warnings@),
                next: next_id as int,
            };
            let item = &sorted[idx];
            proof {
                assert(sv_items[idx as int] == sorted@[idx as int]@);
            }
            let mut component_demands: Vec<Demand> = Vec::new();
            append_item_demands(&mut component_demands, &all_demands, item);
            proof {
                assert(spec_demand_views(component_demands@) =~= spec_demands_of_item(
                    cur.all_demands,
                    item@,
                    0,
                ));
            }
            if component_demands.len() == 0 {
                proof {
                    assert(spec_demands_of_item(cur.all_demands, item@, 0).len() == 0);
                    assert(spec_plan_item(
                        self.bom_graph,
                        self.configs@,
                        self.calendar,
                        svs,
                        ivs,
                        base_days,
                        cur,
                        item@,
                    ) == Ok::<KStateV, KErrV>(cur));
                }
                idx += 1;
                continue ;
            }
            proof {
                assert forall|i: int|
                    0 <= i < component_demands@.len() implies (#[trigger] component_demands@[
                i]).quantity@ >= 0 by {
                    let j = choose|j: int|
                        0 <= j < all_demands@.len() && component_demands@[i] == all_demands@[j];
                }
            }
            let component_supplies = supplies_of_item(&supplies, item);
            proof {
                assert forall|i: int|
                    0 <= i < component_supplies@.len() implies (#[trigger] component_supplies@[
                i]).quantity@ >= 0 by {
                    let j = choose|j: int|
                        0 <= j < supplies@.len() && component_supplies@[i] == supplies@[j];
                }
            }
            let initial_inventory = available_of_item(&inventories, item);
            let ghost dem = spec_demand_views(component_demands@);
            let ghost sup = spec_supply_views(component_supplies@);
            let ghost comp_spec = spec_component_mrp(
                self.configs@,
                self.calendar,
                item@,
                dem,
                sup,
                initial_inventory@,
                base_days,
            );
            let ghost plan_step = spec_plan_item(
                self.bom_graph,
                self.configs@,
                self.calendar,
                svs,
                ivs,
                base_days,
                cur,
                item@,
            );
            proof {
                assert(dem == spec_demands_of_item(cur.all_demands, item@, 0));
                assert(dem.len() == component_demands@.len());
            }
            let comp = match self.calculate_component_mrp(
                item,
                &component_demands,
                &component_supplies,
                initial_inventory,
                &base_axis,
            ) {
                Ok(c) => c,
                Err(me) => {
                    proof {
                        assert(comp_spec is Err);
                        assert(plan_step == Err::<KStateV, KErrV>(comp_spec->Err_0));
                        assert(full == Err::<KStateV, KErrV>(comp_spec->Err_0));
                    }
                    return Err(me);
                },
            };
            let ghost los = comp_spec->Ok_0.0;
            let ghost cfg = comp_spec->Ok_0.1;
            let ghost ot = spec_order_type(cfg.procurement_type);
            proof {
                assert(comp_spec is Ok);
                assert(comp.planned_orders@.len() == los.len());
            }
            let (assigned, new_next) = match assign_order_ids(comp.planned_orders, next_id) {
                Ok(p) => p,
                Err(me) => {
                    proof {
                        lemma_assign_orders_err(los, item@, ot, next_id as int);
                        assert(plan_step == Err::<KStateV, KErrV>(KErrV::IdRange));
                    }
                    return Err(me);
                },
            };
            proof {
                lemma_assign_orders_ok(los, item@, ot, next_id as int);
                assert(spec_korders_of(assigned@) =~= spec_assign_orders(
                    los,
                    item@,
                    ot,
                    next_id as int,
                )->Ok_0);
            }
            let ghost kos = spec_korders_of(assigned@);
            let children = match collect_child_demands(&self.bom_graph, item, &assigned) {
                Ok(v) => v,
                Err(me) => {
                    return Err(me);
                },
            };
            if assigned.len() > 0 {
                match self.bom_graph.find_node(item) {
                    None => {
                        let ghost wbefore = warnings@;
                        warnings.push(
                            MrpWarning::info(
                                item.clone(),
                                String::from_str("item is not in the bill of materials"),
                            ),
                        );
                        proof {
                            assert(spec_warn_views(warnings@) =~= spec_warn_views(wbefore).push(
                                KWarnV { item: item@, severity: WarningSeverity::Info },
                            ));
                        }
                    },
                    Some(_) => {},
                }
            }
            proof {
                lemma_explode_orders_shape(self.bom_graph, item@, kos, 0);
                assert forall|i: int|
                    0 <= i < children@.len() implies (#[trigger] children@[i]).quantity@ >= 0 by {
                    assert(spec_demand_views(children@)[i] == children@[i]@);
                    assert((spec_explode_orders(self.bom_graph, item@, kos, 0)->Ok_0)[i].quantity
                        >= 0);
                }
                assert(spec_korders_of(all_orders@ + assigned@) =~= spec_korders_of(all_orders@)
                    + kos);
                assert(spec_demand_views(all_demands@ + children@) =~= spec_demand_views(
                    all_demands@,
                ) + spec_demand_views(children@));
            }
            let mut assigned_moved = assigned;
            let mut children_moved = children;
            all_orders.append(&mut assigned_moved);
            all_demands.append(&mut children_moved);
            next_id = new_next;
            idx += 1;
        }
        proof {
            let cur = KStateV {
                orders: spec_korders_of(all_orders@),
                all_demands: spec_demand_views(all_demands@),
                warnings: spec_warn_views(warnings@),
                next: next_id as int,
            };
            assert(full == Ok::<KStateV, KErrV>(cur));
            assert forall|a: int, b: int|
                0 <= a < b < all_orders@.len() implies (#[trigger] all_orders@[a]).id != (
            #[trigger] all_orders@[b]).id by {}
        }
        let pegging_map = match PeggingCalculator::perform(
            &all_orders,
            &all_demands,
            PeggingType::MultiLevel,
        ) {
            Ok(m) => m,
            Err(me) => {
                return Err(me);
            },
        };
        let ghost plan_orders = spec_korders_of(all_orders@);
        let ghost plan_dems = spec_demand_views(all_demands@);
        let ghost w0 = spec_warn_views(warnings@);
        let mut k: usize = 0;
        while k < all_orders.len()
            invariant
                0 <= k <= all_orders@.len(),
                plan_orders == spec_korders_of(all_orders@),
                plan_dems == spec_demand_views(all_demands@),
                pegging_map@.dom().len() == all_orders@.len(),
                forall|i: int|
                    0 <= i < all_orders@.len() ==> {
                        let o = #[trigger] all_orders@[i];
                        pegging_map@.contains_key(o.id) && spec_pegs_of(pegging_map@[o.id]@)
                            == spec_trace_from(
                            o.component_id@,
                            o.required_date@,
                            plan_dems,
                            true,
                            0,
                            o.quantity@,
                        )
                    },
                spec_warn_views(warnings@) + spec_peg_warnings(plan_orders, plan_dems, k as int)
                    == w0 + spec_peg_warnings(plan_orders, plan_dems, 0),
            decreases all_orders@.len() - k,
        {
            proof {
                assert(plan_orders[k as int] == spec_korder_of(all_orders@[k as int]));
            }
            let order = &all_orders[k];
            match pegging_map.get(&order.id) {
                Some(recs) => {
                    if recs.len() == 0 {
                        let ghost wbefore = warnings@;
                        proof {
                            assert(spec_pegs_of(recs@).len() == 0);
                        }
                        warnings.push(
                            MrpWarning::warning(
                                order.component_id.clone(),
                                String::from_str("no demand matches the order's required date"),
                            ),
                        );
                        proof {
                            assert(spec_warn_views(warnings@) =~= spec_warn_views(wbefore).push(
                                KWarnV {
                                    item: order.component_id@,
                                    severity: WarningSeverity::Warning,
                                },
                            ));
                            assert(spec_warn_views(wbefore).push(
                                KWarnV {
                                    item: order.component_id@,
                                    severity: WarningSeverity::Warning,
                                },
                            ) + spec_peg_warnings(plan_orders, plan_dems, k + 1)
                                =~= spec_warn_views(wbefore) + (seq![
                                KWarnV {
                                    item: order.component_id@,
                                    severity: WarningSeverity::Warning,
                                },
                            ] + spec_peg_warnings(plan_orders, plan_dems, k + 1)));
                        }
                    } else {
                        proof {
                            assert(spec_pegs_of(recs@).len() == recs@.len());
                        }
                    }
                },
                None => {
                    proof {
                        assert(pegging_map@.contains_key(order.id));
                    }
                },
            }
            k += 1;
        }
        proof {
            assert(spec_warn_views(warnings@) + Seq::<KWarnV>::empty() =~= spec_warn_views(
                warnings@,
            ));
        }
        Ok(
            MrpResult {
                planned_orders: all_orders,
                pegging: pegging_map,
                warnings,
                calculation_time_ms: None,
            },
        )
    }
}


/// Re-running a calculation on the same inputs yields the same orders:
/// the plan is one function of the inputs, so any two results that
/// realise it agree on every planned order, field for field.
pub proof fn lemma_calculate_idempotent(
    plan: KStateV,
    first: Seq<PlannedOrder>,
    second: Seq<PlannedOrder>,
)
    requires
        spec_korders_of(first) == plan.orders,
        spec_korders_of(second) == plan.orders,
    ensures
        first.len() == second.len(),
        forall|k: int|
            0 <= k < first.len() ==> #[trigger] spec_korder_of(first[k]) == spec_korder_of(
                second[k],
            ),
{
    assert(spec_korders_of(first).len() == first.len());
    assert(spec_korders_of(second).len() == second.len());
    assert forall|k: int|
        0 <= k < first.len() implies #[trigger] spec_korder_of(first[k]) == spec_korder_of(
        second[k],
    ) by {
        assert(spec_korders_of(first)[k] == spec_korder_of(first[k]));
        assert(spec_korders_of(second)[k] == spec_korder_of(second[k]));
    }
}

/// Whether the demands hold a dependent demand for `child` of quantity
/// `q` due on day `d`.
pub open spec fn spec_has_dependent_demand(
    cds: Seq<DemandView>,
    child: Seq<char>,
    q: int,
    d: int,
) -> bool {
    exists|x: int|
        0 <= x < cds.len() && (#[trigger] cds[x]).component_id == child && cds[x].quantity == q
            && cds[x].required_date == d && cds[x].demand_type == DemandType::Dependent
}

/// Dependent propagation through one order's explosion: for every
/// graph edge from `item`, the exploded demands hold one for the
/// edge's child, of the order's quantity scaled by the edge, due on
/// the order's start day.
pub proof fn lemma_explosion_propagates(bom: BomGraph, item: Seq<char>, o: KOrderV, j: int)
    requires
        0 <= j,
        spec_explode_order(bom, item, o, j) is Ok,
    ensures
        forall|e: int|
            j <= e < bom.edges@.len() && bom.nodes@[(#[trigger] bom.edges@[e]).parent as int]@
                == item ==> spec_has_dependent_demand(
                spec_explode_order(bom, item, o, j)->Ok_0,
                bom.nodes@[bom.edges@[e].child as int]@,
                spec_mul_qty(o.quantity, bom.edges@[e].quantity_per@),
                o.order_date,
            ),
    decreases bom.edges@.len() - j,
{
    if j >= bom.edges@.len() {
    } else {
        let ed = bom.edges@[j];
        let whole = spec_explode_order(bom, item, o, j)->Ok_0;
        let rest = spec_explode_order(bom, item, o, j + 1)->Ok_0;
        lemma_explosion_propagates(bom, item, o, j + 1);
        if bom.nodes@[ed.parent as int]@ == item {
            assert forall|e: int|
                j <= e < bom.edges@.len() && bom.nodes@[(#[trigger] bom.edges@[e]).parent as int]@
                    == item implies spec_has_dependent_demand(
                whole,
                bom.nodes@[bom.edges@[e].child as int]@,
                spec_mul_qty(o.quantity, bom.edges@[e].quantity_per@),
                o.order_date,
            ) by {
                if e == j {
                    assert(whole[0].component_id == bom.nodes@[ed.child as int]@);
                } else {
                    assert(spec_has_dependent_demand(
                        rest,
                        bom.nodes@[bom.edges@[e].child as int]@,
                        spec_mul_qty(o.quantity, bom.edges@[e].quantity_per@),
                        o.order_date,
                    ));
                    let x = choose|x: int|
                        0 <= x < rest.len() && (#[trigger] rest[x]).component_id == bom.nodes@[
                            bom.edges@[e].child as int
                        ]@ && rest[x].quantity == spec_mul_qty(
                            o.quantity,
                            bom.edges@[e].quantity_per@,
                        ) && rest[x].required_date == o.order_date && rest[x].demand_type
                            == DemandType::Dependent;
                    assert(whole[x + 1] == rest[x]);
                }
            }
        } else {
            assert(whole == rest);
            assert forall|e: int|
                j <= e < bom.edges@.len() && bom.nodes@[(#[trigger] bom.edges@[e]).parent as int]@
                    == item implies spec_has_dependent_demand(
                whole,
                bom.nodes@[bom.edges@[e].child as int]@,
                spec_mul_qty(o.quantity, bom.edges@[e].quantity_per@),
                o.order_date,
            ) by {
                assert(spec_has_dependent_demand(
                    rest,
                    bom.nodes@[bom.edges@[e].child as int]@,
                    spec_mul_qty(o.quantity, bom.edges@[e].quantity_per@),
                    o.order_date,
                ));
            }
        }
    }
}


/// A dependent demand found in either part of a concatenation is found
/// in the whole.
proof fn lemma_dependent_demand_in_concat(
    a: Seq<DemandView>,
    b: Seq<DemandView>,
    child: Seq<char>,
    q: int,
    d: int,
)
    requires
        spec_has_dependent_demand(a, child, q, d) || spec_has_dependent_demand(b, child, q, d),
    ensures
        spec_has_dependent_demand(a + b, child, q, d),
{
    if spec_has_dependent_demand(a, child, q, d) {
        let x = choose|x: int|
            0 <= x < a.len() && (#[trigger] a[x]).component_id == child && a[x].quantity == q
                && a[x].required_date == d && a[x].demand_type == DemandType::Dependent;
        assert((a + b)[x] == a[x]);
    } else {
        let x = choose|x: int|
            0 <= x < b.len() && (#[trigger] b[x]).component_id == child && b[x].quantity == q
                && b[x].required_date == d && b[x].demand_type == DemandType::Dependent;
        assert((a + b)[a.len() + x] == b[x]);
    }
}

/// Dependent propagation through a whole batch: for every order of the
/// batch and every graph edge from `item`, the exploded demands hold a
/// dependent demand for the edge's child, of the order's quantity
/// scaled by the edge, due on the order's start day.
pub proof fn lemma_batch_explosion_propagates(
    bom: BomGraph,
    item: Seq<char>,
    kos: Seq<KOrderV>,
    k: int,
)
    requires
        0 <= k,
        spec_explode_orders(bom, item, kos, k) is Ok,
    ensures
        forall|x: int, e: int|
            k <= x < kos.len() && 0 <= e < bom.edges@.len() && bom.nodes@[(#[trigger] bom.edges@[
                e
            ]).parent as int]@ == item ==> spec_has_dependent_demand(
                spec_explode_orders(bom, item, kos, k)->Ok_0,
                bom.nodes@[bom.edges@[e].child as int]@,
                spec_mul_qty((#[trigger] kos[x]).quantity, bom.edges@[e].quantity_per@),
                kos[x].order_date,
            ),
    decreases kos.len() - k,
{
    if k >= kos.len() {
    } else {
        let head = spec_explode_order(bom, item, kos[k], 0)->Ok_0;
        let rest = spec_explode_orders(bom, item, kos, k + 1)->Ok_0;
        let whole = spec_explode_orders(bom, item, kos, k)->Ok_0;
        assert(whole == head + rest);
        lemma_explosion_propagates(bom, item, kos[k], 0);
        lemma_batch_explosion_propagates(bom, item, kos, k + 1);
        assert forall|x: int, e: int|
            k <= x < kos.len() && 0 <= e < bom.edges@.len() && bom.nodes@[(#[trigger] bom.edges@[
                e
            ]).parent as int]@ == item implies spec_has_dependent_demand(
            whole,
            bom.nodes@[bom.edges@[e].child as int]@,
            spec_mul_qty((#[trigger] kos[x]).quantity, bom.edges@[e].quantity_per@),
            kos[x].order_date,
        ) by {
            if x == k {
                assert(spec_has_dependent_demand(
                    head,
                    bom.nodes@[bom.edges@[e].child as int]@,
                    spec_mul_qty(kos[x].quantity, bom.edges@[e].quantity_per@),
                    kos[x].order_date,
                ));
            } else {
                assert(spec_has_dependent_demand(
                    rest,
                    bom.nodes@[bom.edges@[e].child as int]@,
                    spec_mul_qty(kos[x].quantity, bom.edges@[e].quantity_per@),
                    kos[x].order_date,
                ));
            }
            lemma_dependent_demand_in_concat(
                head,
                rest,
                bom.nodes@[bom.edges@[e].child as int]@,
                spec_mul_qty(kos[x].quantity, bom.edges@[e].quantity_per@),
                kos[x].order_date,
            );
        }
    }
}


/// A demand of the item is kept by the item filter.
pub proof fn lemma_filter_keeps_item_demand(ds: Seq<DemandView>, item: Seq<char>, i: int, x: int)
    requires
        0 <= i <= x < ds.len(),
        ds[x].component_id == item,
    ensures
        exists|y: int|
            0 <= y < spec_demands_of_item(ds, item, i).len() && #[trigger] spec_demands_of_item(
                ds,
                item,
                i,
            )[y] == ds[x],
    decreases ds.len() - i,
{
    let whole = spec_demands_of_item(ds, item, i);
    if x == i {
        assert(whole[0] == ds[x]);
    } else {
        lemma_filter_keeps_item_demand(ds, item, i + 1, x);
        let rest = spec_demands_of_item(ds, item, i + 1);
        let y = choose|y: int| 0 <= y < rest.len() && #[trigger] rest[y] == ds[x];
        if ds[i].component_id == item {
            assert(whole[y + 1] == rest[y]);
        } else {
            assert(whole == rest);
            assert(whole[y] == ds[x]);
        }
    }
}

/// One planning step only appends to the observed demands.
pub proof fn lemma_plan_item_keeps_demands(
    bom: BomGraph,
    cfgs: Seq<MrpConfig>,
    cal: WorkCalendar,
    svs: Seq<SupplyView>,
    invs: Seq<InventoryView>,
    base: Seq<int>,
    st: KStateV,
    item: Seq<char>,
)
    requires
        spec_plan_item(bom, cfgs, cal, svs, invs, base, st, item) is Ok,
    ensures
        ({
            let st2 = spec_plan_item(bom, cfgs, cal, svs, invs, base, st, item)->Ok_0;
            &&& st2.all_demands.len() >= st.all_demands.len()
            &&& forall|x: int|
                0 <= x < st.all_demands.len() ==> #[trigger] st2.all_demands[x]
                    == st.all_demands[x]
        }),
{
}

/// Demands observed at one step stay observed at every later step: a
/// dependent demand a parent casts is part of each later item's input.
pub proof fn lemma_process_keeps_demands(
    bom: BomGraph,
    cfgs: Seq<MrpConfig>,
    cal: WorkCalendar,
    svs: Seq<SupplyView>,
    invs: Seq<InventoryView>,
    base: Seq<int>,
    items: Seq<Seq<char>>,
    i: int,
    st: KStateV,
)
    requires
        spec_process_items(bom, cfgs, cal, svs, invs, base, items, i, st) is Ok,
    ensures
        ({
            let fin = spec_process_items(bom, cfgs, cal, svs, invs, base, items, i, st)->Ok_0;
            &&& fin.all_demands.len() >= st.all_demands.len()
            &&& forall|x: int|
                0 <= x < st.all_demands.len() ==> #[trigger] fin.all_demands[x]
                    == st.all_demands[x]
        }),
    decreases items.len() - i,
{
    if i < 0 || i >= items.len() {
    } else {
        lemma_plan_item_keeps_demands(bom, cfgs, cal, svs, invs, base, st, items[i]);
        let st2 = spec_plan_item(bom, cfgs, cal, svs, invs, base, st, items[i])->Ok_0;
        lemma_process_keeps_demands(bom, cfgs, cal, svs, invs, base, items, i + 1, st2);
    }
}


/// An edge from any pending item witnesses a pending parent.
proof fn lemma_pending_pred_witness(
    bom: BomGraph,
    pending: Seq<Seq<char>>,
    x: Seq<char>,
    k: int,
    m: int,
)
    requires
        0 <= k <= m < pending.len(),
        bom.spec_has_edge(pending[m], x),
    ensures
        spec_has_pending_pred(bom, pending, x, k),
    decreases m - k,
{
    if k < m {
        lemma_pending_pred_witness(bom, pending, x, k + 1, m);
    }
}

/// A ready scan that reports a hit reports a ready item.
proof fn lemma_find_ready_hit(bom: BomGraph, pending: Seq<Seq<char>>, j: int, h: int)
    requires
        0 <= j,
        spec_find_ready(bom, pending, j) == Some(h),
    ensures
        j <= h < pending.len(),
        !spec_has_pending_pred(bom, pending, pending[h], 0),
    decreases pending.len() - j,
{
    if j < pending.len() && spec_has_pending_pred(bom, pending, pending[j], 0) {
        lemma_find_ready_hit(bom, pending, j + 1, h);
    }
}

/// Every item of the topological order comes from the pending items.
proof fn lemma_topo_members(bom: BomGraph, pending: Seq<Seq<char>>)
    requires
        spec_topo_order(bom, pending) is Some,
    ensures
        forall|b: int|
            0 <= b < (spec_topo_order(bom, pending)->0).len() ==> exists|idx: int|
                0 <= idx < pending.len() && pending[idx] == #[trigger] (spec_topo_order(
                    bom,
                    pending,
                )->0)[b],
    decreases pending.len(),
{
    if pending.len() == 0 {
    } else {
        let j = spec_find_ready(bom, pending, 0)->0;
        lemma_find_ready_hit(bom, pending, 0, j);
        let sub = pending.remove(j);
        lemma_topo_members(bom, sub);
        let s = spec_topo_order(bom, pending)->0;
        let rest = spec_topo_order(bom, sub)->0;
        assert(s == seq![pending[j]] + rest);
        assert forall|b: int|
            0 <= b < s.len() implies exists|idx: int|
                0 <= idx < pending.len() && pending[idx] == #[trigger] s[b] by {
            if b == 0 {
                assert(pending[j] == s[0]);
            } else {
                assert(s[b] == rest[b - 1]);
                let idx = choose|idx: int| 0 <= idx < sub.len() && sub[idx] == rest[b - 1];
                if idx < j {
                    assert(pending[idx] == sub[idx]);
                } else {
                    assert(pending[idx + 1] == sub[idx]);
                }
            }
        }
    }
}

/// The topological order lists parents first: wherever the graph has
/// an edge between two listed items, the parent stands strictly
/// earlier than the child.
pub proof fn lemma_topo_parents_first(bom: BomGraph, pending: Seq<Seq<char>>)
    requires
        spec_topo_order(bom, pending) is Some,
    ensures
        forall|pa: int, pb: int|
            0 <= pa < (spec_topo_order(bom, pending)->0).len() && 0 <= pb < (spec_topo_order(
                bom,
                pending,
            )->0).len() && bom.spec_has_edge(
                #[trigger] (spec_topo_order(bom, pending)->0)[pb],
                #[trigger] (spec_topo_order(bom, pending)->0)[pa],
            ) ==> pb < pa,
    decreases pending.len(),
{
    if pending.len() == 0 {
    } else {
        let j = spec_find_ready(bom, pending, 0)->0;
        lemma_find_ready_hit(bom, pending, 0, j);
        let sub = pending.remove(j);
        lemma_topo_parents_first(bom, sub);
        lemma_topo_members(bom, sub);
        let s = spec_topo_order(bom, pending)->0;
        let rest = spec_topo_order(bom, sub)->0;
        assert(s == seq![pending[j]] + rest);
        assert forall|pa: int, pb: int|
            0 <= pa < s.len() && 0 <= pb < s.len() && bom.spec_has_edge(
                #[trigger] s[pb],
                #[trigger] s[pa],
            ) implies pb < pa by {
            if pa == 0 {
                if pb == 0 {
                    lemma_pending_pred_witness(bom, pending, pending[j], 0, j);
                    assert(false);
                } else {
                    assert(s[pb] == rest[pb - 1]);
                    let idx = choose|idx: int| 0 <= idx < sub.len() && sub[idx] == rest[pb - 1];
                    if idx < j {
                        assert(pending[idx] == sub[idx]);
                        lemma_pending_pred_witness(bom, pending, pending[j], 0, idx);
                    } else {
                        assert(pending[idx + 1] == sub[idx]);
                        lemma_pending_pred_witness(bom, pending, pending[j], 0, idx + 1);
                    }
                    assert(false);
                }
            } else if pb == 0 {
            } else {
                assert(s[pa] == rest[pa - 1] && s[pb] == rest[pb - 1]);
            }
        }
    }
}


/// Whether the listed items are pairwise distinct.
pub open spec fn spec_items_distinct(s: Seq<Seq<char>>) -> bool {
    forall|a: int, b: int| 0 <= a < b < s.len() ==> s[a] != s[b]
}

/// A membership scan finds exactly the items listed at or past its
/// start.
proof fn lemma_items_contain_iff(s: Seq<Seq<char>>, x: Seq<char>, i: int)
    requires
        0 <= i,
    ensures
        spec_items_contain(s, x, i) <==> exists|m: int| i <= m < s.len() && s[m] == x,
    decreases s.len() - i,
{
    if i < s.len() {
        lemma_items_contain_iff(s, x, i + 1);
        if s[i] == x {
            assert(i <= i < s.len() && s[i] == x);
        }
    }
}

/// Collecting items never lists one twice.
proof fn lemma_collect_items_distinct(ds: Seq<DemandView>, i: int, acc: Seq<Seq<char>>)
    requires
        spec_items_distinct(acc),
    ensures
        spec_items_distinct(spec_collect_items(ds, i, acc)),
    decreases ds.len() - i,
{
    if i < 0 || i >= ds.len() {
    } else if spec_items_contain(acc, ds[i].component_id, 0) {
        lemma_collect_items_distinct(ds, i + 1, acc);
    } else {
        lemma_items_contain_iff(acc, ds[i].component_id, 0);
        assert(spec_items_distinct(acc.push(ds[i].component_id)));
        lemma_collect_items_distinct(ds, i + 1, acc.push(ds[i].component_id));
    }
}

/// The item names reachable as a child of some edge.
pub open spec fn spec_child_names(bom: BomGraph) -> Set<Seq<char>> {
    Set::new(
        |n: Seq<char>|
            exists|e: int|
                0 <= e < bom.edges@.len() && bom.nodes@[(#[trigger] bom.edges@[e]).child as int]@
                    == n,
    )
}

/// There are no more child names than arena items.
proof fn lemma_child_names_bounded(bom: BomGraph)
    requires
        bom.wf(),
    ensures
        spec_child_names(bom).finite(),
        spec_child_names(bom).len() <= bom.nodes@.len(),
{
    let names = bom.nodes@.map_values(|s: String| s@);
    assert(spec_child_names(bom).subset_of(names.to_set())) by {
        assert forall|n: Seq<char>| spec_child_names(bom).contains(n) implies names.to_set()
            .contains(n) by {
            let e = choose|e: int|
                0 <= e < bom.edges@.len() && bom.nodes@[(#[trigger] bom.edges@[e]).child as int]@
                    == n;
            assert(names[bom.edges@[e].child as int] == n);
            assert(names.contains(n));
        }
    }
    names.lemma_cardinality_of_set();
    vstd::seq_lib::seq_to_set_is_finite(names);
    vstd::set_lib::lemma_len_subset(spec_child_names(bom), names.to_set());
}


/// A sweep keeps every listed item listed.
proof fn lemma_sweep_keeps(bom: BomGraph, acc: Seq<Seq<char>>, j: int, x: Seq<char>)
    requires
        spec_items_contain(acc, x, 0),
    ensures
        spec_items_contain(spec_sweep_edges(bom, acc, j), x, 0),
{
    lemma_items_contain_iff(acc, x, 0);
    lemma_sweep_prefix(bom, acc, j);
    let m = choose|m: int| 0 <= m < acc.len() && acc[m] == x;
    assert(spec_sweep_edges(bom, acc, j)[m] == x);
    lemma_items_contain_iff(spec_sweep_edges(bom, acc, j), x, 0);
}

/// A sweep stays duplicate-free, and everything it appends is a child
/// name that was not listed before.
proof fn lemma_sweep_props(bom: BomGraph, acc: Seq<Seq<char>>, j: int)
    requires
        bom.wf(),
        spec_items_distinct(acc),
        0 <= j,
    ensures
        spec_items_distinct(spec_sweep_edges(bom, acc, j)),
        forall|k: int|
            acc.len() <= k < spec_sweep_edges(bom, acc, j).len() ==> spec_child_names(
                bom,
            ).contains(#[trigger] spec_sweep_edges(bom, acc, j)[k]) && !spec_items_contain(
                acc,
                spec_sweep_edges(bom, acc, j)[k],
                0,
            ),
    decreases bom.edges@.len() - j,
{
    if j >= bom.edges@.len() {
    } else {
        let e = bom.edges@[j];
        let p = bom.nodes@[e.parent as int]@;
        let c = bom.nodes@[e.child as int]@;
        let sw = spec_sweep_edges(bom, acc, j);
        if spec_items_contain(acc, p, 0) && !spec_items_contain(acc, c, 0) {
            let acc2 = acc.push(c);
            lemma_items_contain_iff(acc, c, 0);
            assert(spec_items_distinct(acc2));
            lemma_sweep_props(bom, acc2, j + 1);
            lemma_sweep_prefix(bom, acc2, j + 1);
            assert(sw == spec_sweep_edges(bom, acc2, j + 1));
            assert forall|k: int|
                acc.len() <= k < sw.len() implies spec_child_names(bom).contains(
                #[trigger] sw[k],
            ) && !spec_items_contain(acc, sw[k], 0) by {
                if k == acc.len() {
                    assert(sw[k] == acc2[k]);
                    assert(sw[k] == c);
                    assert(spec_child_names(bom).contains(c));
                } else {
                    assert(k >= acc2.len());
                    assert(spec_child_names(bom).contains(sw[k]) && !spec_items_contain(
                        acc2,
                        sw[k],
                        0,
                    ));
                    lemma_items_contain_iff(acc2, sw[k], 0);
                    lemma_items_contain_iff(acc, sw[k], 0);
                    assert(!spec_items_contain(acc, sw[k], 0)) by {
                        if spec_items_contain(acc, sw[k], 0) {
                            let m = choose|m: int| 0 <= m < acc.len() && acc[m] == sw[k];
                            assert(acc2[m] == sw[k]);
                        }
                    }
                }
            }
        } else {
            lemma_sweep_props(bom, acc, j + 1);
        }
    }
}

/// After a sweep, the child of every edge whose parent was listed is
/// listed.
proof fn lemma_sweep_covers(bom: BomGraph, acc: Seq<Seq<char>>, j: int, e: int)
    requires
        bom.wf(),
        0 <= j <= e < bom.edges@.len(),
        spec_items_contain(acc, bom.nodes@[bom.edges@[e].parent as int]@, 0),
    ensures
        spec_items_contain(
            spec_sweep_edges(bom, acc, j),
            bom.nodes@[bom.edges@[e].child as int]@,
            0,
        ),
    decreases bom.edges@.len() - j,
{
    let ej = bom.edges@[j];
    let p = bom.nodes@[ej.parent as int]@;
    let c = bom.nodes@[ej.child as int]@;
    if spec_items_contain(acc, p, 0) && !spec_items_contain(acc, c, 0) {
        let acc2 = acc.push(c);
        if j == e {
            assert(spec_items_contain(acc2, c, 0)) by {
                assert(acc2[acc.len() as int] == c);
                lemma_items_contain_iff(acc2, c, 0);
            }
            lemma_sweep_keeps(bom, acc2, j + 1, c);
        } else {
            assert(spec_items_contain(acc2, bom.nodes@[bom.edges@[e].parent as int]@, 0)) by {
                lemma_items_contain_iff(acc, bom.nodes@[bom.edges@[e].parent as int]@, 0);
                let m = choose|m: int|
                    0 <= m < acc.len() && acc[m] == bom.nodes@[bom.edges@[e].parent as int]@;
                assert(acc2[m] == bom.nodes@[bom.edges@[e].parent as int]@);
                lemma_items_contain_iff(acc2, bom.nodes@[bom.edges@[e].parent as int]@, 0);
            }
            lemma_sweep_covers(bom, acc2, j + 1, e);
        }
    } else {
        if j == e {
            assert(spec_items_contain(acc, c, 0));
            lemma_sweep_keeps(bom, acc, j + 1, c);
        } else {
            lemma_sweep_covers(bom, acc, j + 1, e);
        }
    }
}


/// The child names not yet listed.
pub open spec fn spec_missing_children(bom: BomGraph, acc: Seq<Seq<char>>) -> Set<Seq<char>> {
    spec_child_names(bom).difference(acc.to_set())
}

/// A sweep that appends something strikes at least one name off the
/// missing children.
proof fn lemma_sweep_shrinks_missing(bom: BomGraph, acc: Seq<Seq<char>>)
    requires
        bom.wf(),
        spec_items_distinct(acc),
        spec_sweep_edges(bom, acc, 0).len() != acc.len(),
    ensures
        spec_missing_children(bom, spec_sweep_edges(bom, acc, 0)).len() < spec_missing_children(
            bom,
            acc,
        ).len(),
        spec_missing_children(bom, spec_sweep_edges(bom, acc, 0)).finite(),
{
    let sw = spec_sweep_edges(bom, acc, 0);
    lemma_sweep_prefix(bom, acc, 0);
    lemma_sweep_props(bom, acc, 0);
    lemma_child_names_bounded(bom);
    let c = sw[acc.len() as int];
    assert(spec_child_names(bom).contains(c) && !spec_items_contain(acc, c, 0));
    lemma_items_contain_iff(acc, c, 0);
    assert(!acc.to_set().contains(c));
    assert(spec_missing_children(bom, acc).contains(c));
    assert(spec_missing_children(bom, sw).subset_of(spec_missing_children(bom, acc).remove(c)))
        by {
        assert forall|n: Seq<char>|
            spec_missing_children(bom, sw).contains(n) implies spec_missing_children(
            bom,
            acc,
        ).remove(c).contains(n) by {
            assert(!sw.to_set().contains(n));
            assert(!acc.to_set().contains(n)) by {
                if acc.to_set().contains(n) {
                    let m = choose|m: int| 0 <= m < acc.len() && acc[m] == n;
                    assert(sw[m] == n);
                    assert(sw.to_set().contains(n));
                }
            }
            assert(n != c) by {
                assert(sw.to_set().contains(c));
            }
        }
    }
    assert(spec_missing_children(bom, acc).finite());
    vstd::set_lib::lemma_len_subset(
        spec_missing_children(bom, sw),
        spec_missing_children(bom, acc).remove(c),
    );
    assert(spec_missing_children(bom, acc).remove(c).len() == spec_missing_children(
        bom,
        acc,
    ).len() - 1);
}

/// With fuel for every missing child, the repeated sweeps leave a
/// closed list: the child of every edge whose parent is listed is
/// listed too.
proof fn lemma_closure_closed(bom: BomGraph, acc: Seq<Seq<char>>, fuel: nat)
    requires
        bom.wf(),
        spec_items_distinct(acc),
        spec_missing_children(bom, acc).len() <= fuel,
        spec_missing_children(bom, acc).finite(),
    ensures
        forall|e: int|
            0 <= e < bom.edges@.len() && spec_items_contain(
                spec_closure_items(bom, acc, fuel),
                bom.nodes@[(#[trigger] bom.edges@[e]).parent as int]@,
                0,
            ) ==> spec_items_contain(
                spec_closure_items(bom, acc, fuel),
                bom.nodes@[bom.edges@[e].child as int]@,
                0,
            ),
        spec_items_distinct(spec_closure_items(bom, acc, fuel)),
    decreases fuel,
{
    if fuel == 0 {
        assert(spec_missing_children(bom, acc).len() == 0);
        assert forall|e: int|
            0 <= e < bom.edges@.len() && spec_items_contain(
                acc,
                bom.nodes@[(#[trigger] bom.edges@[e]).parent as int]@,
                0,
            ) implies spec_items_contain(acc, bom.nodes@[bom.edges@[e].child as int]@, 0) by {
            let c = bom.nodes@[bom.edges@[e].child as int]@;
            assert(spec_child_names(bom).contains(c));
            assert(acc.to_set().contains(c)) by {
                if !acc.to_set().contains(c) {
                    assert(spec_missing_children(bom, acc).contains(c));
                    assert(spec_missing_children(bom, acc).len() >= 1) by {
                        if spec_missing_children(bom, acc).len() == 0 {
                            assert(spec_missing_children(bom, acc) =~= Set::<Seq<char>>::empty());
                        }
                    }
                }
            }
            let m = choose|m: int| 0 <= m < acc.len() && acc[m] == c;
            lemma_items_contain_iff(acc, c, 0);
        }
    } else {
        let acc2 = spec_sweep_edges(bom, acc, 0);
        if acc2.len() == acc.len() {
            lemma_sweep_prefix(bom, acc, 0);
            assert(acc2 =~= acc);
            assert forall|e: int|
                0 <= e < bom.edges@.len() && spec_items_contain(
                    acc,
                    bom.nodes@[(#[trigger] bom.edges@[e]).parent as int]@,
                    0,
                ) implies spec_items_contain(acc, bom.nodes@[bom.edges@[e].child as int]@, 0) by {
                lemma_sweep_covers(bom, acc, 0, e);
            }
        } else {
            lemma_sweep_props(bom, acc, 0);
            lemma_sweep_shrinks_missing(bom, acc);
            lemma_closure_closed(bom, acc2, (fuel - 1) as nat);
        }
    }
}

/// Every pending item appears in the topological order.
proof fn lemma_topo_complete(bom: BomGraph, pending: Seq<Seq<char>>)
    requires
        spec_topo_order(bom, pending) is Some,
    ensures
        forall|m: int|
            0 <= m < pending.len() ==> exists|b: int|
                0 <= b < (spec_topo_order(bom, pending)->0).len() && (spec_topo_order(
                    bom,
                    pending,
                )->0)[b] == #[trigger] pending[m],
    decreases pending.len(),
{
    if pending.len() == 0 {
    } else {
        let j = spec_find_ready(bom, pending, 0)->0;
        lemma_find_ready_hit(bom, pending, 0, j);
        let sub = pending.remove(j);
        lemma_topo_complete(bom, sub);
        let s = spec_topo_order(bom, pending)->0;
        let rest = spec_topo_order(bom, sub)->0;
        assert(s == seq![pending[j]] + rest);
        assert forall|m: int|
            0 <= m < pending.len() implies exists|b: int|
                0 <= b < s.len() && s[b] == #[trigger] pending[m] by {
            if m == j {
                assert(s[0] == pending[j]);
            } else {
                let mi = if m < j {
                    m
                } else {
                    m - 1
                };
                assert(sub[mi] == pending[m]);
                let b = choose|b: int| 0 <= b < rest.len() && rest[b] == sub[mi];
                assert(s[b + 1] == rest[b]);
            }
        }
    }
}

/// Every item a planned item is built from takes part in the run: the
/// dependency closure of the demanded items is closed under the bill
/// of materials, and the topological order keeps each of its items.
pub proof fn lemma_planned_items_complete(bom: BomGraph, dvs: Seq<DemandView>)
    requires
        bom.wf(),
        spec_topo_order(
            bom,
            spec_closure_items(bom, spec_collect_items(dvs, 0, Seq::empty()), bom.nodes@.len()),
        ) is Some,
    ensures
        ({
            let closure = spec_closure_items(
                bom,
                spec_collect_items(dvs, 0, Seq::empty()),
                bom.nodes@.len(),
            );
            let sorted = spec_topo_order(bom, closure)->0;
            forall|e: int, a: int|
                0 <= e < bom.edges@.len() && 0 <= a < sorted.len() && bom.nodes@[(
                #[trigger] bom.edges@[e]).parent as int]@ == #[trigger] sorted[a] ==> exists|b: int|
                    0 <= b < sorted.len() && sorted[b] == bom.nodes@[bom.edges@[e].child as int]@
        }),
{
    let roots = spec_collect_items(dvs, 0, Seq::empty());
    let closure = spec_closure_items(bom, roots, bom.nodes@.len());
    let sorted = spec_topo_order(bom, closure)->0;
    assert(spec_items_distinct(Seq::<Seq<char>>::empty()));
    lemma_collect_items_distinct(dvs, 0, Seq::empty());
    lemma_child_names_bounded(bom);
    assert(spec_missing_children(bom, roots).subset_of(spec_child_names(bom)));
    vstd::set_lib::lemma_len_subset(spec_missing_children(bom, roots), spec_child_names(bom));
    lemma_closure_closed(bom, roots, bom.nodes@.len());
    lemma_topo_members(bom, closure);
    lemma_topo_complete(bom, closure);
    assert forall|e: int, a: int|
        0 <= e < bom.edges@.len() && 0 <= a < sorted.len() && bom.nodes@[(#[trigger] bom.edges@[
            e
        ]).parent as int]@ == #[trigger] sorted[a] implies exists|b: int|
            0 <= b < sorted.len() && sorted[b] == bom.nodes@[bom.edges@[e].child as int]@ by {
        let idx = choose|idx: int| 0 <= idx < closure.len() && closure[idx] == sorted[a];
        lemma_items_contain_iff(closure, bom.nodes@[bom.edges@[e].parent as int]@, 0);
        assert(spec_items_contain(closure, bom.nodes@[bom.edges@[e].parent as int]@, 0));
        assert(spec_items_contain(closure, bom.nodes@[bom.edges@[e].child as int]@, 0));
        lemma_items_contain_iff(closure, bom.nodes@[bom.edges@[e].child as int]@, 0);
        let m = choose|m: int|
            0 <= m < closure.len() && closure[m] == bom.nodes@[bom.edges@[e].child as int]@;
        let b = choose|b: int| 0 <= b < sorted.len() && sorted[b] == closure[m];
    }
}

} // verus!
