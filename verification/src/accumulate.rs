//! The daily job: every vehicle's waiting samples are folded into its
//! totals, and on the first day of a month every vehicle is billed for the
//! month before. The job does all of it or, on an error, nothing.

use vstd::prelude::*;
use crate::billing::{
    billed_vehicle, bills, create_invoice_rule, has_invoice, issue_invoice_rule,
    new_invoice,
};
use crate::calendar::{civil_date, date_of, previous_month, previous_month_spec, Date};
use crate::codec::Persist;
use crate::error::Error;
use crate::fold::{fold_samples, put_samples};
use crate::invoices::lemma_invoice_storable;
use crate::principal::Principal;
use crate::records::{Invoice, InvoiceStatus, InvoiceView, Vehicle, VehicleView};
use crate::rules::{follows, is_canister, numbered, storable, StateView};
use crate::state::{is_storable, lemma_id_fits, lemma_principal_fits, State};
use crate::table::{is_key_order, key_order, Id, Present};
use crate::telemetry::Sample;

verus! {

// ------------------------------------------------------------- the rules

/// That `order` lists the vehicles as their table keeps them.
pub open spec fn is_table_order(order: Seq<Seq<u8>>, keys: Set<Seq<u8>>) -> bool {
    is_key_order::<Principal>(order, keys)
}

/// The vehicles in the order in which their table keeps them.
pub open spec fn table_order(keys: Set<Seq<u8>>) -> Seq<Seq<u8>> {
    key_order::<Principal>(keys)
}

/// A vehicle's record after the fold: its samples are in its totals and
/// none is waiting; `None` where a total would not fit.
pub open spec fn folded_vehicle(v: VehicleView) -> Option<VehicleView> {
    match fold_samples(v.accumulated_telemetry, v.telemetry) {
        Some(totals) => Some(
            VehicleView { telemetry: Seq::empty(), accumulated_telemetry: totals, ..v },
        ),
        None => None,
    }
}

/// The fold of one vehicle.
pub open spec fn fold_vehicle_rule(s: StateView, vehicle: Seq<u8>) -> Result<StateView, Error> {
    if !s.vehicles.contains_key(vehicle) {
        Err(Error::NotFound)
    } else {
        match folded_vehicle(s.vehicles[vehicle]) {
            None => Err(Error::Internal),
            Some(v) => if !storable::<Vehicle>(v) {
                Err(Error::Internal)
            } else {
                Ok(StateView { vehicles: s.vehicles.insert(vehicle, v), ..s })
            },
        }
    }
}

/// The fold of the vehicles of a list, one after the other.
pub open spec fn fold_all_rule(s: StateView, order: Seq<Seq<u8>>) -> Result<StateView, Error>
    decreases order.len(),
{
    if order.len() == 0 {
        Ok(s)
    } else {
        match fold_vehicle_rule(s, order[0]) {
            Ok(next) => fold_all_rule(next, order.drop_first()),
            Err(e) => Err(e),
        }
    }
}

/// The billing of the vehicles of a list for a month, one after the other.
pub open spec fn bill_all_rule(s: StateView, order: Seq<Seq<u8>>, year: i32, month: u8) -> Result<
    StateView,
    Error,
>
    decreases order.len(),
{
    if order.len() == 0 {
        Ok(s)
    } else {
        match create_invoice_rule(s, order[0], year, month) {
            Ok(next) => bill_all_rule(next, order.drop_first(), year, month),
            Err(e) => Err(e),
        }
    }
}

/// The daily job on a given day, over the vehicles in the given order:
/// all are folded; then, on the first of a month, all are billed for the
/// month before.
pub open spec fn daily_rule(s: StateView, order: Seq<Seq<u8>>, today: Date) -> Result<
    StateView,
    Error,
> {
    match fold_all_rule(s, order) {
        Err(e) => Err(e),
        Ok(folded) => if today.day != 1 {
            Ok(folded)
        } else {
            match previous_month_spec(today.year, today.month) {
                None => Err(Error::InvalidData),
                Some((year, month)) => bill_all_rule(folded, order, year, month),
            }
        },
    }
}

/// The invoices of a map with a list of new ones put in, in order.
pub open spec fn with_invoices(m: Map<u128, InvoiceView>, created: Seq<InvoiceView>) -> Map<
    u128,
    InvoiceView,
>
    decreases created.len(),
{
    if created.len() == 0 {
        m
    } else {
        with_invoices(m, created.drop_last()).insert(created.last().id, created.last())
    }
}

/// A queue with the numbers of a list of new invoices put in.
pub open spec fn with_ids(q: Set<u128>, created: Seq<InvoiceView>) -> Set<u128>
    decreases created.len(),
{
    if created.len() == 0 {
        q
    } else {
        with_ids(q, created.drop_last()).insert(created.last().id)
    }
}

/// That the new invoices are numbered one after the other from `base` on.
pub open spec fn numbered_from(created: Seq<InvoiceView>, base: u128) -> bool {
    forall|k: int| 0 <= k < created.len() ==> (#[trigger] created[k]).id == base + k + 1
}

/// What a map holds after new invoices, numbered from `base` on, were put
/// in: what it held, and each new invoice under its number.
pub proof fn lemma_with_invoices(m: Map<u128, InvoiceView>, created: Seq<InvoiceView>, base: u128)
    requires
        numbered_from(created, base),
    ensures
        forall|id: u128| #[trigger]
            with_invoices(m, created).contains_key(id) <==> m.contains_key(id) || (base < id
                <= base + created.len()),
        forall|id: u128|
            m.contains_key(id) && id <= base ==> #[trigger] with_invoices(m, created)[id] == m[id],
        forall|k: int|
            0 <= k < created.len() ==> with_invoices(m, created)[(#[trigger] created[k]).id]
                == created[k],
    decreases created.len(),
{
    if created.len() > 0 {
        let front = created.drop_last();
        assert(numbered_from(front, base)) by {
            assert forall|k: int| 0 <= k < front.len() implies (#[trigger] front[k]).id == base + k
                + 1 by {
                assert(front[k] == created[k]);
            }
        }
        lemma_with_invoices(m, front, base);
        let last = created.last();
        let before = with_invoices(m, front);
        let after = with_invoices(m, created);
        assert(last == created[created.len() - 1]);
        assert(last.id == base + created.len());
        assert(after == before.insert(last.id, last));
        assert forall|id: u128| #[trigger]
            after.contains_key(id) <==> m.contains_key(id) || (base < id <= base
                + created.len()) by {
            if id != last.id {
                assert(after.contains_key(id) == before.contains_key(id));
            }
        }
        assert forall|id: u128| m.contains_key(id) && id <= base implies #[trigger] after[id]
            == m[id] by {
            assert(before.contains_key(id));
            assert(before[id] == m[id]);
        }
        assert forall|k: int| 0 <= k < created.len() implies after[(#[trigger] created[k]).id]
            == created[k] by {
            if k < created.len() - 1 {
                assert(front[k] == created[k]);
                assert(created[k].id != last.id);
                assert(before[front[k].id] == front[k]);
            }
        }
    }
}

/// What a queue holds after the numbers of new invoices, numbered from
/// `base` on, were put in.
pub proof fn lemma_with_ids(q: Set<u128>, created: Seq<InvoiceView>, base: u128)
    requires
        numbered_from(created, base),
    ensures
        forall|id: u128| #[trigger]
            with_ids(q, created).contains(id) <==> q.contains(id) || (base < id <= base
                + created.len()),
    decreases created.len(),
{
    if created.len() > 0 {
        let front = created.drop_last();
        assert(numbered_from(front, base)) by {
            assert forall|k: int| 0 <= k < front.len() implies (#[trigger] front[k]).id == base + k
                + 1 by {
                assert(front[k] == created[k]);
            }
        }
        lemma_with_ids(q, front, base);
        let last = created.last();
        let before = with_ids(q, front);
        let after = with_ids(q, created);
        assert(last == created[created.len() - 1]);
        assert(last.id == base + created.len());
        assert(after == before.insert(last.id));
        assert forall|id: u128| #[trigger]
            after.contains(id) <==> q.contains(id) || (base < id <= base + created.len()) by {
            if id != last.id {
                assert(after.contains(id) == before.contains(id));
            }
        }
    }
}

/// The vehicles of a plan: each key of the list with the record at its
/// place.
pub open spec fn staged_vehicles(order: Seq<Seq<u8>>, records: Seq<VehicleView>) -> Map<
    Seq<u8>,
    VehicleView,
> {
    Map::new(|k: Seq<u8>| order.contains(k), |k: Seq<u8>| records[order.index_of(k)])
}

/// In a plan over a list without repeats, each key has the record at its
/// own place.
pub proof fn lemma_staged(order: Seq<Seq<u8>>, records: Seq<VehicleView>, j: int)
    requires
        order.no_duplicates(),
        0 <= j < order.len(),
    ensures
        staged_vehicles(order, records).contains_key(order[j]),
        staged_vehicles(order, records)[order[j]] == records[j],
{
    assert(order.contains(order[j]));
    let i = order.index_of(order[j]);
    assert(order[i] == order[j]);
}

/// The state with the vehicles of a plan in place of its own.
pub open spec fn with_plan(s: StateView, order: Seq<Seq<u8>>, records: Seq<VehicleView>) -> StateView {
    StateView { vehicles: staged_vehicles(order, records), ..s }
}

/// The state with a plan carried out: the vehicles of the plan, the new
/// invoices in the map and in the queue, and the counter moved on.
pub open spec fn with_bills(
    s: StateView,
    order: Seq<Seq<u8>>,
    records: Seq<VehicleView>,
    created: Seq<InvoiceView>,
) -> StateView {
    StateView {
        vehicles: staged_vehicles(order, records),
        invoices: with_invoices(s.invoices, created),
        pending_invoices: with_ids(s.pending_invoices, created),
        invoice_counter: (s.invoice_counter + created.len()) as u128,
        ..s
    }
}

/// That every record of a plan is short enough to store.
pub open spec fn all_storable(records: Seq<VehicleView>) -> bool {
    forall|j: int| 0 <= j < records.len() ==> storable::<Vehicle>(#[trigger] records[j])
}

impl State {
    /// The first half of the plan of the daily job: every vehicle's record
    /// after the fold, in the order of the keys; `None` where a fold fails.
    pub(crate) fn stage_folds(&self, keys: &Vec<Principal>) -> (r: Option<Vec<Vehicle>>)
        requires
            self.wf(),
            is_table_order(keys.model(), self@.vehicles.dom()),
        ensures
            match fold_all_rule(self@, keys.model()) {
                Ok(folded) => {
                    &&& r is Some
                    &&& r->0@.len() == keys@.len()
                    &&& folded == with_plan(self@, keys.model(), r->0.model())
                    &&& all_storable(r->0.model())
                },
                Err(e) => r is None && e == Error::Internal,
            },
    {
        let ghost order = keys.model();
        let ghost s0 = self@;
        let mut staged: Vec<Vehicle> = Vec::new();
        let ghost mut cur = s0;
        let mut i: usize = 0;
        assert(order.skip(0) =~= order);
        while i < keys.len()
            invariant
                self.wf(),
                self@ == s0,
                order == keys.model(),
                is_table_order(order, s0.vehicles.dom()),
                i <= keys@.len(),
                staged@.len() == i,
                fold_all_rule(s0, order) == fold_all_rule(cur, order.skip(i as int)),
                cur == (StateView { vehicles: cur.vehicles, ..s0 }),
                cur.vehicles.dom() == s0.vehicles.dom(),
                forall|j: int|
                    0 <= j < i ==> cur.vehicles[order[j]] == (#[trigger] staged@[j]).model()
                        && storable::<Vehicle>(staged@[j].model()),
                forall|j: int|
                    i <= j < order.len() ==> cur.vehicles[#[trigger] order[j]]
                        == s0.vehicles[order[j]],
            decreases keys@.len() - i,
        {
            let key = &keys[i];
            let ghost rest = order.skip(i as int);
            proof {
                assert(order[i as int] == key@);
                assert(rest[0] == order[i as int]);
                assert(rest.drop_first() =~= order.skip(i + 1));
                assert(order.to_set().contains(key@));
                assert(cur.vehicles.dom().contains(key@));
            }
            let mut record = match self.vehicles.get(key) {
                Some(record) => record,
                None => { return None; },
            };
            let ghost before = record.model();
            assert(before == cur.vehicles[key@]);
            assert(record.telemetry.model() =~= record.telemetry@);
            if !put_samples(&mut record.accumulated_telemetry, &record.telemetry) {
                assert(folded_vehicle(before) is None);
                return None;
            }
            record.telemetry = Vec::new();
            proof {
                assert(record.model().telemetry =~= Seq::<Sample>::empty());
                assert(record.model() == folded_vehicle(before)->0);
            }
            if !is_storable(&record) {
                return None;
            }
            proof {
                let next = StateView {
                    vehicles: cur.vehicles.insert(key@, record.model()),
                    ..cur
                };
                assert(fold_vehicle_rule(cur, key@) == Ok::<StateView, Error>(next));
                assert forall|j: int| 0 <= j < i implies next.vehicles[order[j]] == (
                #[trigger] staged@[j]).model() by {
                    assert(order[j] != order[i as int]);
                }
                assert forall|j: int| i < j < order.len() implies next.vehicles[#[trigger] order[j]]
                    == s0.vehicles[order[j]] by {
                    assert(order[j] != order[i as int]);
                }
                assert(next.vehicles.dom() =~= s0.vehicles.dom());
                cur = next;
            }
            staged.push(record);
            i += 1;
        }
        proof {
            assert(order.skip(order.len() as int) =~= Seq::<Seq<u8>>::empty());
            assert(fold_all_rule(s0, order) == Ok::<StateView, Error>(cur));
            let plan = staged_vehicles(order, staged.model());
            assert(cur.vehicles =~= plan) by {
                assert forall|k: Seq<u8>| cur.vehicles.contains_key(k) <==> plan.contains_key(
                    k,
                ) by {
                    assert(order.to_set().contains(k) == order.contains(k));
                }
                assert forall|k: Seq<u8>| cur.vehicles.contains_key(k) implies cur.vehicles[k]
                    == plan[k] by {
                    assert(order.to_set().contains(k));
                    let j = choose|j: int| 0 <= j < order.len() && order[j] == k;
                    lemma_staged(order, staged.model(), j);
                    assert(staged.model()[j] == staged@[j].model());
                }
            }
            assert forall|j: int| 0 <= j < staged.model().len() implies storable::<Vehicle>(
                #[trigger] staged.model()[j],
            ) by {
                assert(staged.model()[j] == staged@[j].model());
            }
        }
        Some(staged)
    }

    /// The second half of the plan: the invoices to write for a month, in
    /// the order of the keys; the records of the billed vehicles get the
    /// numbers of their invoices.
    pub(crate) fn stage_bills(
        &self,
        keys: &Vec<Principal>,
        staged: &mut Vec<Vehicle>,
        year: i32,
        month: u8,
    ) -> (r: Result<Vec<Invoice>, Error>)
        requires
            self.wf(),
            is_table_order(keys.model(), self@.vehicles.dom()),
            old(staged)@.len() == keys@.len(),
            all_storable(old(staged).model()),
        ensures
            final(staged)@.len() == keys@.len(),
            match bill_all_rule(
                with_plan(self@, keys.model(), old(staged).model()),
                keys.model(),
                year,
                month,
            ) {
                Ok(billed) => {
                    &&& r is Ok
                    &&& billed == with_bills(
                        self@,
                        keys.model(),
                        final(staged).model(),
                        r->Ok_0.model(),
                    )
                    &&& numbered_from(r->Ok_0.model(), self@.invoice_counter)
                    &&& self@.invoice_counter + r->Ok_0@.len() <= u128::MAX
                    &&& all_storable(final(staged).model())
                },
                Err(e) => r == Err::<Vec<Invoice>, Error>(e),
            },
    {
        let ghost order = keys.model();
        let ghost s0 = self@;
        let ghost start = with_plan(s0, order, staged.model());
        let mut created: Vec<Invoice> = Vec::new();
        let mut counter: u128 = self.invoice_counter;
        let ghost mut cur = start;
        let mut i: usize = 0;
        proof {
            assert(order.skip(0) =~= order);
            assert(created.model() =~= Seq::<InvoiceView>::empty());
            assert forall|j: int| 0 <= j < staged@.len() implies storable::<Vehicle>(
                (#[trigger] staged@[j]).model(),
            ) by {
                assert(staged.model()[j] == staged@[j].model());
            }
            assert forall|j: int| 0 <= j < order.len() implies cur.vehicles[#[trigger] order[j]]
                == staged@[j].model() by {
                lemma_staged(order, staged.model(), j);
            }
            assert(cur.vehicles.dom() =~= s0.vehicles.dom()) by {
                assert forall|k: Seq<u8>| cur.vehicles.contains_key(k) <==> s0.vehicles.contains_key(
                    k,
                ) by {
                    assert(order.to_set().contains(k) == order.contains(k));
                }
            }
        }
        while i < keys.len()
            invariant
                self.wf(),
                self@ == s0,
                order == keys.model(),
                is_table_order(order, s0.vehicles.dom()),
                i <= keys@.len(),
                staged@.len() == keys@.len(),
                start == with_plan(s0, order, old(staged).model()),
                bill_all_rule(start, order, year, month) == bill_all_rule(
                    cur,
                    order.skip(i as int),
                    year,
                    month,
                ),
                cur == (StateView {
                    vehicles: cur.vehicles,
                    invoices: cur.invoices,
                    pending_invoices: cur.pending_invoices,
                    invoice_counter: cur.invoice_counter,
                    ..s0
                }),
                cur.vehicles.dom() == s0.vehicles.dom(),
                forall|j: int|
                    0 <= j < order.len() ==> cur.vehicles[#[trigger] order[j]]
                        == staged@[j].model(),
                forall|j: int|
                    0 <= j < staged@.len() ==> storable::<Vehicle>((#[trigger] staged@[j]).model()),
                cur.invoice_counter == counter,
                counter == s0.invoice_counter + created@.len(),
                cur.invoices == with_invoices(s0.invoices, created.model()),
                cur.pending_invoices == with_ids(s0.pending_invoices, created.model()),
                numbered_from(created.model(), s0.invoice_counter),
                forall|k: int|
                    0 <= k < created@.len() ==> (#[trigger] created.model()[k]).year == year
                        && created.model()[k].month == month && exists|j: int|
                        0 <= j < i && created.model()[k].vehicle == order[j],
            decreases keys@.len() - i,
        {
            let key = &keys[i];
            let ghost rest = order.skip(i as int);
            let ghost made = created.model();
            proof {
                assert(order[i as int] == key@);
                assert(rest[0] == order[i as int]);
                assert(rest.drop_first() =~= order.skip(i + 1));
                assert(order.to_set().contains(key@));
                assert(cur.vehicles.contains_key(key@));
                lemma_with_invoices(s0.invoices, made, s0.invoice_counter);
                // The invoices planned so far are for other vehicles, and
                // none of them took the place of an invoice that was there.
                if has_invoice(cur.invoices, key@, year, month) {
                    let id = choose|id: u128| #[trigger]
                        cur.invoices.contains_key(id) && bills(cur.invoices[id], key@, year, month);
                    if s0.invoice_counter < id <= s0.invoice_counter + made.len() {
                        let k = id - s0.invoice_counter - 1;
                        assert(made[k].id == id);
                        assert(cur.invoices[made[k].id] == made[k]);
                        let j = choose|j: int| 0 <= j < i && made[k].vehicle == order[j];
                        assert(order[j] != order[i as int]);
                    } else {
                        assert(s0.invoices.contains_key(id));
                        assert(id <= s0.invoice_counter);
                        assert(cur.invoices[id] == s0.invoices[id]);
                        assert(s0.invoices.contains_key(id) && bills(
                            s0.invoices[id],
                            key@,
                            year,
                            month,
                        ));
                    }
                }
                if has_invoice(s0.invoices, key@, year, month) {
                    let id = choose|id: u128| #[trigger]
                        s0.invoices.contains_key(id) && bills(s0.invoices[id], key@, year, month);
                    assert(id <= s0.invoice_counter);
                    assert(cur.invoices[id] == s0.invoices[id]);
                    assert(cur.invoices.contains_key(id) && bills(
                        cur.invoices[id],
                        key@,
                        year,
                        month,
                    ));
                }
                assert(has_invoice(cur.invoices, key@, year, month) == has_invoice(
                    s0.invoices,
                    key@,
                    year,
                    month,
                ));
            }
            let billed = self.has_invoice_for(key, year, month);
            let decision = self.decide_invoice(billed, &staged[i]);
            match decision {
                Err(e) => {
                    return Err(e);
                },
                Ok(None) => {
                    proof {
                        assert(create_invoice_rule(cur, key@, year, month) == Ok::<StateView, Error>(
                            cur,
                        ));
                        assert forall|k: int| 0 <= k < created@.len() implies (
                        #[trigger] created.model()[k]).year == year && created.model()[k].month
                            == month && exists|j: int|
                            0 <= j < i + 1 && created.model()[k].vehicle == order[j] by {
                            let j = choose|j: int| 0 <= j < i && created.model()[k].vehicle == order[j];
                            assert(0 <= j < i + 1 && created.model()[k].vehicle == order[j]);
                        }
                    }
                },
                Ok(Some((agreement, total))) => {
                    if counter == u128::MAX {
                        return Err(Error::Internal);
                    }
                    let id: u128 = counter + 1;
                    let ghost before = staged@[i as int].model();
                    let ghost others = staged@;
                    let record = &mut staged[i];
                    record.invoices.push(id);
                    proof {
                        assert(record.model().invoices =~= before.invoices.push(id));
                        assert(record.model() == billed_vehicle(before, id));
                    }
                    let fitting = is_storable(&staged[i]);
                    if !fitting {
                        return Err(Error::Internal);
                    }
                    let invoice = Invoice {
                        id,
                        status: InvoiceStatus::Unpaid,
                        vehicle: key.clone(),
                        agreement,
                        year,
                        month,
                        total_cost: total,
                    };
                    created.push(invoice);
                    proof {
                        let bill = new_invoice(id, key@, year, month, agreement, total);
                        let next = StateView {
                            invoice_counter: id,
                            invoices: cur.invoices.insert(id, bill),
                            pending_invoices: cur.pending_invoices.insert(id),
                            vehicles: cur.vehicles.insert(key@, billed_vehicle(before, id)),
                            ..cur
                        };
                        assert(issue_invoice_rule(cur, key@, year, month, agreement, total) == Ok::<
                            StateView,
                            Error,
                        >(next));
                        assert(create_invoice_rule(cur, key@, year, month) == Ok::<StateView, Error>(
                            next,
                        ));
                        assert(created.model() =~= made.push(bill));
                        assert(created.model().drop_last() =~= made);
                        assert(numbered_from(created.model(), s0.invoice_counter)) by {
                            assert forall|k: int| 0 <= k < created.model().len() implies (
                            #[trigger] created.model()[k]).id == s0.invoice_counter + k + 1 by {
                                if k < made.len() {
                                    assert(created.model()[k] == made[k]);
                                }
                            }
                        }
                        assert forall|j: int| 0 <= j < order.len() implies next.vehicles[
                        #[trigger] order[j]] == staged@[j].model() by {
                            if j != i {
                                assert(order[j] != order[i as int]);
                                assert(staged@[j] == others[j]);
                            }
                        }
                        assert forall|j: int| 0 <= j < staged@.len() implies storable::<Vehicle>(
                            (#[trigger] staged@[j]).model(),
                        ) by {
                            if j != i {
                                assert(staged@[j] == others[j]);
                            }
                        }
                        assert(next.vehicles.dom() =~= s0.vehicles.dom());
                        assert forall|k: int| 0 <= k < created@.len() implies (
                        #[trigger] created.model()[k]).year == year && created.model()[k].month
                            == month && exists|j: int|
                            0 <= j < i + 1 && created.model()[k].vehicle == order[j] by {
                            if k < made.len() {
                                assert(created.model()[k] == made[k]);
                                let j = choose|j: int| 0 <= j < i && made[k].vehicle == order[j];
                                assert(0 <= j < i + 1 && created.model()[k].vehicle == order[j]);
                            } else {
                                assert(0 <= i < i + 1 && created.model()[k].vehicle == order[
                                i as int]);
                            }
                        }
                        cur = next;
                    }
                    counter = id;
                },
            }
            i += 1;
        }
        proof {
            assert(order.skip(order.len() as int) =~= Seq::<Seq<u8>>::empty());
            let plan = staged_vehicles(order, staged.model());
            assert(cur.vehicles =~= plan) by {
                assert forall|k: Seq<u8>| cur.vehicles.contains_key(k) <==> plan.contains_key(
                    k,
                ) by {
                    assert(order.to_set().contains(k) == order.contains(k));
                }
                assert forall|k: Seq<u8>| cur.vehicles.contains_key(k) implies cur.vehicles[k]
                    == plan[k] by {
                    assert(order.to_set().contains(k));
                    let j = choose|j: int| 0 <= j < order.len() && order[j] == k;
                    lemma_staged(order, staged.model(), j);
                    assert(staged.model()[j] == staged@[j].model());
                }
            }
            assert forall|j: int| 0 <= j < staged.model().len() implies storable::<Vehicle>(
                #[trigger] staged.model()[j],
            ) by {
                assert(staged.model()[j] == staged@[j].model());
            }
        }
        Ok(created)
    }

    /// Carries a plan out: the records of the plan are stored, the new
    /// invoices are written and queued, and the counter moves on.
    pub(crate) fn commit(&mut self, keys: &Vec<Principal>, staged: &Vec<Vehicle>, created: &Vec<Invoice>)
        requires
            old(self).wf(),
            is_table_order(keys.model(), old(self)@.vehicles.dom()),
            staged@.len() == keys@.len(),
            all_storable(staged.model()),
            numbered_from(created.model(), old(self)@.invoice_counter),
            old(self)@.invoice_counter + created@.len() <= u128::MAX,
        ensures
            final(self).wf(),
            final(self)@ == with_bills(old(self)@, keys.model(), staged.model(), created.model()),
    {
        let ghost order = keys.model();
        let ghost s0 = self@;
        let ghost made = created.model();
        let base = self.invoice_counter;
        self.invoice_counter = base + created.len() as u128;
        let mut i: usize = 0;
        while i < keys.len()
            invariant
                self.wf(),
                order == keys.model(),
                made == created.model(),
                is_table_order(order, s0.vehicles.dom()),
                staged@.len() == keys@.len(),
                all_storable(staged.model()),
                i <= keys@.len(),
                self@ == (StateView {
                    vehicles: self@.vehicles,
                    invoice_counter: (base + created@.len()) as u128,
                    ..s0
                }),
                s0.invoice_counter == base,
                base + created@.len() <= u128::MAX,
                numbered(s0),
                self@.vehicles.dom() == s0.vehicles.dom(),
                forall|j: int|
                    0 <= j < i ==> self@.vehicles[#[trigger] order[j]] == staged@[j].model(),
            decreases keys@.len() - i,
        {
            let ghost before = self@.vehicles;
            let known = self.vehicles.contains_key(&keys[i]);
            proof {
                assert(order[i as int] == keys@[i as int]@);
                assert(order.to_set().contains(order[i as int]));
                assert(staged.model()[i as int] == staged@[i as int].model());
                lemma_principal_fits::<Vehicle>(order[i as int], staged@[i as int].model());
            }
            let stored = self.vehicles.insert(&keys[i], &staged[i]);
            proof {
                assert(self@.vehicles.dom() =~= s0.vehicles.dom());
                assert forall|j: int| 0 <= j < i + 1 implies self@.vehicles[#[trigger] order[j]]
                    == staged@[j].model() by {
                    if j < i {
                        assert(order[j] != order[i as int]);
                        assert(before[order[j]] == staged@[j].model());
                    }
                }
            }
            i += 1;
        }
        proof {
            let plan = staged_vehicles(order, staged.model());
            assert(self@.vehicles =~= plan) by {
                assert forall|k: Seq<u8>| self@.vehicles.contains_key(k) <==> plan.contains_key(
                    k,
                ) by {
                    assert(order.to_set().contains(k) == order.contains(k));
                }
                assert forall|k: Seq<u8>| self@.vehicles.contains_key(k) implies self@.vehicles[k]
                    == plan[k] by {
                    assert(order.to_set().contains(k));
                    let j = choose|j: int| 0 <= j < order.len() && order[j] == k;
                    lemma_staged(order, staged.model(), j);
                    assert(staged.model()[j] == staged@[j].model());
                }
            }
            assert(made.take(0) =~= Seq::<InvoiceView>::empty());
            assert(self@.pending_invoices =~= with_ids(s0.pending_invoices, made.take(0)));
        }
        let mut k: usize = 0;
        while k < created.len()
            invariant
                self.wf(),
                made == created.model(),
                k <= created@.len(),
                numbered_from(made, base),
                numbered(s0),
                s0.invoice_counter == base,
                base + created@.len() <= u128::MAX,
                self@ == (StateView {
                    vehicles: staged_vehicles(order, staged.model()),
                    invoices: with_invoices(s0.invoices, made.take(k as int)),
                    pending_invoices: with_ids(s0.pending_invoices, made.take(k as int)),
                    invoice_counter: (base + created@.len()) as u128,
                    ..s0
                }),
            decreases created@.len() - k,
        {
            let invoice = &created[k];
            let id = invoice.id;
            let fitting = is_storable(invoice);
            proof {
                assert(made[k as int] == invoice.model());
                assert(id == base + k + 1);
                lemma_invoice_storable(invoice.model());
                lemma_id_fits::<Invoice>(id, invoice.model());
                lemma_id_fits::<Present>(id, ());
                let done = made.take(k as int);
                let next = made.take(k + 1);
                assert(next =~= done.push(made[k as int]));
                assert(next.drop_last() =~= done);
                assert(numbered_from(next, base)) by {
                    assert forall|n: int| 0 <= n < next.len() implies (#[trigger] next[n]).id
                        == base + n + 1 by {
                        assert(next[n] == made[n]);
                    }
                }
                lemma_with_invoices(s0.invoices, next, base);
            }
            let first = self.invoices.insert(&Id(id), invoice);
            let second = self.pending_invoices.insert(&Id(id), &Present);
            proof {
                let next = made.take(k + 1);
                assert(self@.pending_invoices =~= with_ids(s0.pending_invoices, next));
                assert(self@.invoices == with_invoices(s0.invoices, next));
            }
            k += 1;
        }
        proof {
            assert(made.take(created@.len() as int) =~= made);
        }
    }

    /// The daily job on a given day: every vehicle's waiting samples are
    /// folded into its totals, and on the first day of a month every
    /// vehicle is billed for the month before. The vehicles are taken in
    /// the order of their table.
    pub fn accumulate_on(&mut self, caller: &Principal, today: Date) -> (r: Result<(), Error>)
        requires
            old(self).wf(),
        ensures
            final(self).wf(),
            !is_canister(old(self)@, caller@) ==> r == Err::<(), Error>(Error::Unauthorized)
                && final(self)@ == old(self)@,
            is_canister(old(self)@, caller@) ==> follows(
                daily_rule(old(self)@, table_order(old(self)@.vehicles.dom()), today),
                old(self)@,
                final(self)@,
                r,
            ),
    {
        if !self.canister.equals(caller) {
            return Err(Error::Unauthorized);
        }
        let keys = self.vehicles.keys();
        let ghost order = keys.model();
        let ghost s0 = self@;
        assert(order == table_order(s0.vehicles.dom()));
        let mut staged = match self.stage_folds(&keys) {
            Some(staged) => staged,
            None => {
                assert(is_table_order(order, s0.vehicles.dom()) && follows(
                    daily_rule(s0, order, today),
                    s0,
                    self@,
                    Err::<(), Error>(Error::Internal),
                ));
                return Err(Error::Internal);
            },
        };
        let ghost folded = staged.model();
        let created = if today.day == 1 {
            match previous_month(today.year, today.month) {
                None => {
                    assert(is_table_order(order, s0.vehicles.dom()) && follows(
                        daily_rule(s0, order, today),
                        s0,
                        self@,
                        Err::<(), Error>(Error::InvalidData),
                    ));
                    return Err(Error::InvalidData);
                },
                Some((year, month)) => match self.stage_bills(&keys, &mut staged, year, month) {
                    Ok(created) => created,
                    Err(e) => {
                        assert(is_table_order(order, s0.vehicles.dom()) && follows(
                            daily_rule(s0, order, today),
                            s0,
                            self@,
                            Err::<(), Error>(e),
                        ));
                        return Err(e);
                    },
                },
            }
        } else {
            let none: Vec<Invoice> = Vec::new();
            proof {
                assert(none.model() =~= Seq::<InvoiceView>::empty());
                assert(with_ids(s0.pending_invoices, none.model()) =~= s0.pending_invoices);
            }
            none
        };
        self.commit(&keys, &staged, &created);
        proof {
            assert(is_table_order(order, s0.vehicles.dom()) && follows(
                daily_rule(s0, order, today),
                s0,
                self@,
                Ok::<(), Error>(()),
            ));
        }
        Ok(())
    }

    /// The daily job at the moment `now` of the canister's clock, in
    /// nanoseconds since the Unix epoch.
    pub fn accumulate_telemetry_data(&mut self, caller: &Principal, now: u64) -> (r: Result<
        (),
        Error,
    >)
        requires
            old(self).wf(),
        ensures
            final(self).wf(),
            !is_canister(old(self)@, caller@) ==> r == Err::<(), Error>(Error::Unauthorized)
                && final(self)@ == old(self)@,
            is_canister(old(self)@, caller@) && date_of(now) is None ==> r == Err::<(), Error>(
                Error::InvalidData,
            ) && final(self)@ == old(self)@,
            is_canister(old(self)@, caller@) && date_of(now) is Some ==> follows(
                daily_rule(old(self)@, table_order(old(self)@.vehicles.dom()), date_of(now)->0),
                old(self)@,
                final(self)@,
                r,
            ),
    {
        if !self.canister.equals(caller) {
            return Err(Error::Unauthorized);
        }
        match civil_date(now) {
            Some(today) => self.accumulate_on(caller, today),
            None => Err(Error::InvalidData),
        }
    }
}

} // verus!
