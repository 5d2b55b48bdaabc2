//! Billing: what a vehicle owes for a month, and the invoice that says so.
//! The cost is the sum, over the years of gas on the vehicle's record, of
//! the year's total times the price of the vehicle's agreement, computed
//! in decimals and cut down to a whole number.

use vstd::prelude::*;
use crate::codec::{models, Persist};
use crate::decimal::{
    decimal_add, decimal_from_u128, decimal_mul, decimal_of_text, decimal_product, decimal_sum,
    decimal_to_u128, parse_decimal, whole_amount, whole_part, Amount, MAX_SCALE,
};
use crate::error::Error;
use crate::invoices::lemma_invoice_storable;
use crate::principal::Principal;
use crate::records::{AgreementView, Invoice, InvoiceStatus, InvoiceView, Vehicle, VehicleView};
use crate::rules::{follows, storable, StateView};
use crate::state::{is_storable, lemma_id_fits, lemma_principal_fits, State};
use crate::table::{Id, Present};
use crate::telemetry::{AccumulatedTelemetryYearly, TelemetryType, YearView};

verus! {

// ------------------------------------------------------------- the cost

/// The decimal zero, from which a cost is summed up.
pub open spec fn nothing() -> Amount {
    Amount { lo: 0, mid: 0, hi: 0, negative: false, scale: 0 }
}

/// What a year's usage costs at a price.
pub open spec fn usage_cost(value: u128, price: Amount) -> Option<Amount> {
    match whole_amount(value) {
        Some(usage) => decimal_product(usage, price),
        None => None,
    }
}

/// `total` and the cost of every year of gas, added up in order.
pub open spec fn total_from(total: Amount, years: Seq<YearView>, price: Amount) -> Option<Amount>
    decreases years.len(),
{
    if years.len() == 0 {
        Some(total)
    } else if years[0].t_type != TelemetryType::Gas {
        total_from(total, years.drop_first(), price)
    } else {
        match usage_cost(years[0].value, price) {
            Some(cost) => match decimal_sum(total, cost) {
                Some(next) => total_from(next, years.drop_first(), price),
                None => None,
            },
            None => None,
        }
    }
}

/// What a vehicle with these totals owes at a price: the cost as a whole
/// number, or `None` where a decimal along the way cannot be held or the
/// cost is below zero.
pub open spec fn invoice_total(years: Seq<YearView>, price: Amount) -> Option<u128> {
    match total_from(nothing(), years, price) {
        Some(total) => match whole_part(total) {
            Some(whole) => if 0 <= whole <= u128::MAX {
                Some(whole as u128)
            } else {
                None
            },
            None => None,
        },
        None => None,
    }
}

/// What a vehicle with these totals owes at a price.
pub fn compute_total(years: &Vec<AccumulatedTelemetryYearly>, price: Amount) -> (r: Option<u128>)
    requires
        price.scale <= MAX_SCALE,
    ensures
        r == invoice_total(years.model(), price),
{
    let mut total = Amount { lo: 0, mid: 0, hi: 0, negative: false, scale: 0 };
    let ghost all = years.model();
    let mut i: usize = 0;
    assert(all.skip(0) =~= all);
    while i < years.len()
        invariant
            i <= years@.len(),
            all == years.model(),
            price.scale <= MAX_SCALE,
            total.scale <= MAX_SCALE,
            total_from(nothing(), all, price) == total_from(total, all.skip(i as int), price),
        decreases years@.len() - i,
    {
        let ghost rest = all.skip(i as int);
        assert(rest[0] == all[i as int]);
        assert(rest.drop_first() =~= all.skip(i + 1));
        match years[i].t_type {
            TelemetryType::Gas => {
                let usage = match decimal_from_u128(years[i].value) {
                    Some(usage) => usage,
                    None => { return None; },
                };
                let cost = match decimal_mul(usage, price) {
                    Some(cost) => cost,
                    None => { return None; },
                };
                total = match decimal_add(total, cost) {
                    Some(next) => next,
                    None => { return None; },
                };
            },
        }
        i += 1;
    }
    decimal_to_u128(total)
}

// ------------------------------------------------------------- the rules

/// Whether there is an invoice for the vehicle and the month.
pub open spec fn has_invoice(
    invoices: Map<u128, InvoiceView>,
    vehicle: Seq<u8>,
    year: i32,
    month: u8,
) -> bool {
    exists|id: u128| #[trigger]
        invoices.contains_key(id) && bills(invoices[id], vehicle, year, month)
}

/// Whether the invoice is the one of the vehicle for the month.
pub open spec fn bills(invoice: InvoiceView, vehicle: Seq<u8>, year: i32, month: u8) -> bool {
    invoice.vehicle == vehicle && invoice.year == year && invoice.month == month
}

/// What is to be billed, once it is known whether the vehicle has its
/// invoice for the month: nothing where it has; else the agreement and the
/// cost, for which the vehicle must be under an agreement that is there and
/// whose price is a decimal.
pub open spec fn decide(billed: bool, v: VehicleView, agreements: Map<u128, AgreementView>) -> Result<
    Option<(u128, u128)>,
    Error,
> {
    if billed {
        Ok(None)
    } else if v.agreement is None {
        Err(Error::NotFound)
    } else if !agreements.contains_key(v.agreement->0) {
        Err(Error::NotFound)
    } else {
        match decimal_of_text(agreements[v.agreement->0].conditions.gas_price) {
            None => Err(Error::InvalidData),
            Some(price) => match invoice_total(v.accumulated_telemetry, price) {
                None => Err(Error::Internal),
                Some(total) => Ok(Some((v.agreement->0, total))),
            },
        }
    }
}

/// The invoice of a vehicle for a month, under a number.
pub open spec fn new_invoice(
    id: u128,
    vehicle: Seq<u8>,
    year: i32,
    month: u8,
    agreement: u128,
    total_cost: u128,
) -> InvoiceView {
    InvoiceView { id, status: InvoiceStatus::Unpaid, vehicle, agreement, year, month, total_cost }
}

/// The vehicle's record with one more invoice on its list.
pub open spec fn billed_vehicle(v: VehicleView, id: u128) -> VehicleView {
    VehicleView { invoices: v.invoices.push(id), ..v }
}

/// Writing an invoice: it takes the next number, goes on the vehicle's
/// list and into the queue of invoices to announce.
pub open spec fn issue_invoice_rule(
    s: StateView,
    vehicle: Seq<u8>,
    year: i32,
    month: u8,
    agreement: u128,
    total_cost: u128,
) -> Result<StateView, Error> {
    if !s.vehicles.contains_key(vehicle) {
        Err(Error::NotFound)
    } else if s.invoice_counter == u128::MAX {
        Err(Error::Internal)
    } else {
        let id = (s.invoice_counter + 1) as u128;
        if !storable::<Vehicle>(billed_vehicle(s.vehicles[vehicle], id)) {
            Err(Error::Internal)
        } else {
            Ok(
                StateView {
                    invoice_counter: id,
                    invoices: s.invoices.insert(
                        id,
                        new_invoice(id, vehicle, year, month, agreement, total_cost),
                    ),
                    pending_invoices: s.pending_invoices.insert(id),
                    vehicles: s.vehicles.insert(vehicle, billed_vehicle(s.vehicles[vehicle], id)),
                    ..s
                },
            )
        }
    }
}

/// `create_invoice`: the invoice of a vehicle for a month is written,
/// unless there is one.
pub open spec fn create_invoice_rule(s: StateView, vehicle: Seq<u8>, year: i32, month: u8) -> Result<
    StateView,
    Error,
> {
    if has_invoice(s.invoices, vehicle, year, month) {
        Ok(s)
    } else if !s.vehicles.contains_key(vehicle) {
        Err(Error::NotFound)
    } else {
        match decide(false, s.vehicles[vehicle], s.agreements) {
            Err(e) => Err(e),
            Ok(None) => Ok(s),
            Ok(Some((agreement, total))) => issue_invoice_rule(
                s,
                vehicle,
                year,
                month,
                agreement,
                total,
            ),
        }
    }
}

impl State {
    /// Whether there is an invoice for the vehicle and the month.
    pub fn has_invoice_for(&self, vehicle: &Principal, year: i32, month: u8) -> (r: bool)
        requires
            self.wf(),
        ensures
            r == has_invoice(self@.invoices, vehicle@, year, month),
    {
        let ids = self.invoices.keys();
        let ghost order = models::<Id>(ids@);
        let mut i: usize = 0;
        while i < ids.len()
            invariant
                self.wf(),
                i <= ids@.len(),
                order == models::<Id>(ids@),
                order.to_set() == self@.invoices.dom(),
                forall|j: int|
                    0 <= j < i ==> !bills(
                        self@.invoices[#[trigger] order[j]],
                        vehicle@,
                        year,
                        month,
                    ),
            decreases ids@.len() - i,
        {
            let id = ids[i].0;
            assert(order[i as int] == id);
            assert(order.to_set().contains(id));
            match self.invoices.get(&Id(id)) {
                Some(invoice) => {
                    if invoice.vehicle.equals(vehicle) && invoice.year == year && invoice.month
                        == month {
                        assert(self@.invoices.contains_key(id) && bills(
                            self@.invoices[id],
                            vehicle@,
                            year,
                            month,
                        ));
                        return true;
                    }
                },
                None => {},
            }
            i += 1;
        }
        proof {
            assert forall|id: u128| #[trigger] self@.invoices.contains_key(id) implies !bills(
                self@.invoices[id],
                vehicle@,
                year,
                month,
            ) by {
                assert(order.to_set().contains(id));
                let j = choose|j: int| 0 <= j < order.len() && order[j] == id;
                assert(!bills(self@.invoices[order[j]], vehicle@, year, month));
            }
        }
        false
    }

    /// What is to be billed for a vehicle with this record; `billed` says
    /// whether it has its invoice for the month.
    pub fn decide_invoice(&self, billed: bool, record: &Vehicle) -> (r: Result<
        Option<(u128, u128)>,
        Error,
    >)
        requires
            self.wf(),
        ensures
            r == decide(billed, record.model(), self@.agreements),
    {
        if billed {
            return Ok(None);
        }
        let agreement_id = match record.agreement {
            Some(id) => id,
            None => { return Err(Error::NotFound); },
        };
        let agreement = match self.agreements.get(&Id(agreement_id)) {
            Some(agreement) => agreement,
            None => { return Err(Error::NotFound); },
        };
        let price = match parse_decimal(agreement.conditions.gas_price.as_str()) {
            Some(price) => price,
            None => { return Err(Error::InvalidData); },
        };
        match compute_total(&record.accumulated_telemetry, price) {
            Some(total) => Ok(Some((agreement_id, total))),
            None => Err(Error::Internal),
        }
    }

    /// Writes the invoice of a vehicle for a month, at a cost.
    pub fn issue_invoice(
        &mut self,
        vehicle: &Principal,
        year: i32,
        month: u8,
        agreement: u128,
        total_cost: u128,
    ) -> (r: Result<(), Error>)
        requires
            old(self).wf(),
        ensures
            final(self).wf(),
            follows(
                issue_invoice_rule(old(self)@, vehicle@, year, month, agreement, total_cost),
                old(self)@,
                final(self)@,
                r,
            ),
    {
        let mut record = match self.vehicles.get(vehicle) {
            Some(record) => record,
            None => { return Err(Error::NotFound); },
        };
        if self.invoice_counter == u128::MAX {
            return Err(Error::Internal);
        }
        let id: u128 = self.invoice_counter + 1;
        let ghost before = record.model();
        record.invoices.push(id);
        proof {
            assert(record.model().invoices =~= before.invoices.push(id));
            assert(record.model() == billed_vehicle(before, id));
        }
        if !is_storable(&record) {
            return Err(Error::Internal);
        }
        let invoice = Invoice {
            id,
            status: InvoiceStatus::Unpaid,
            vehicle: vehicle.clone(),
            agreement,
            year,
            month,
            total_cost,
        };
        let fitting = is_storable(&invoice);
        proof {
            lemma_invoice_storable(invoice.model());
            lemma_id_fits::<Invoice>(id, invoice.model());
            lemma_id_fits::<Present>(id, ());
            lemma_principal_fits::<Vehicle>(vehicle@, record.model());
        }
        self.invoice_counter = id;
        let first = self.invoices.insert(&Id(id), &invoice);
        let second = self.pending_invoices.insert(&Id(id), &Present);
        let third = self.vehicles.insert(vehicle, &record);
        assert(self@.pending_invoices =~= old(self)@.pending_invoices.insert(id));
        Ok(())
    }

    /// Writes the invoice of a vehicle for a month, unless there is one.
    pub fn create_invoice(&mut self, vehicle: &Principal, year: i32, month: u8) -> (r: Result<
        (),
        Error,
    >)
        requires
            old(self).wf(),
        ensures
            final(self).wf(),
            follows(
                create_invoice_rule(old(self)@, vehicle@, year, month),
                old(self)@,
                final(self)@,
                r,
            ),
    {
        if self.has_invoice_for(vehicle, year, month) {
            return Ok(());
        }
        let record = match self.vehicles.get(vehicle) {
            Some(record) => record,
            None => { return Err(Error::NotFound); },
        };
        match self.decide_invoice(false, &record) {
            Err(e) => Err(e),
            Ok(None) => Ok(()),
            Ok(Some((agreement, total))) => self.issue_invoice(
                vehicle,
                year,
                month,
                agreement,
                total,
            ),
        }
    }
}

} // verus!
