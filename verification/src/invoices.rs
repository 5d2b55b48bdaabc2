//! The operations on invoices: reading one, paying one through the ledger,
//! and the two queues from which the notifier learns of new and of paid
//! invoices.

use vstd::prelude::*;
use vstd::bytes::*;
use crate::codec::{lemma_bytes_enc_len, models, Persist};
use crate::error::Error;
use crate::principal::Principal;
use crate::records::{Invoice, InvoiceStatus, InvoiceView, PendingInvoice};
use crate::rules::{
    begin_payment_rule, can_notify, complete_payment_rule, delete_paid_invoices_rule,
    delete_pending_invoices_rule, follows, get_invoice_rule, is_gateway, notice, numbered,
    storable,
    PaymentView, PendingView,
};
use crate::state::{is_listed, lemma_id_fits, State};
use crate::table::{
    increasing, is_key_order, key_order, law_id_key_order_is_increasing, Id, Present, Table,
};

verus! {

/// What is to be asked of the ledger for an invoice.
#[derive(Debug)]
pub enum Payment {
    /// The invoice is paid already: nothing is to be transferred.
    Settled,
    /// The amount is to be transferred from the payer to the provider.
    Transfer { from: Principal, to: Principal, amount: u128 },
}

impl Payment {
    /// What the payment stands for.
    pub open spec fn model(&self) -> PaymentView {
        match *self {
            Payment::Settled => PaymentView::Settled,
            Payment::Transfer { from, to, amount } => PaymentView::Transfer {
                from: from@,
                to: to@,
                amount,
            },
        }
    }
}

impl PendingInvoice {
    /// What the notice stands for.
    pub open spec fn model(&self) -> PendingView {
        PendingView {
            id: self.id,
            customer_email: self.customer_email.model(),
            vehicle: self.vehicle@,
        }
    }
}

/// The numbers of a list of notices, in order.
pub open spec fn ids_of(list: Seq<PendingInvoice>) -> Seq<u128> {
    Seq::new(list.len(), |i: int| list[i].id)
}

/// An invoice is always short enough for a table to hold.
pub proof fn lemma_invoice_storable(m: InvoiceView)
    requires
        Invoice::valid(m),
    ensures
        storable::<Invoice>(m),
{
    lemma_auto_spec_u128_to_from_le_bytes();
    lemma_auto_spec_u32_to_from_le_bytes();
    lemma_bytes_enc_len(m.vehicle);
}

impl State {
    /// An invoice, for any user.
    pub fn get_invoice(&self, caller: &Principal, id: u128) -> (r: Result<Invoice, Error>)
        requires
            self.wf(),
        ensures
            match get_invoice_rule(self@, caller@, id) {
                Ok(invoice) => r is Ok && r->Ok_0.model() == invoice,
                Err(e) => r == Err::<Invoice, Error>(e),
            },
    {
        if !self.users.contains_key(caller) {
            return Err(Error::Unauthorized);
        }
        match self.invoices.get(&Id(id)) {
            Some(invoice) => Ok(invoice),
            None => Err(Error::NotFound),
        }
    }

    /// The first half of paying an invoice: what the caller is to ask of
    /// the ledger. Nothing changes.
    pub fn begin_payment(&self, caller: &Principal, id: u128) -> (r: Result<Payment, Error>)
        requires
            self.wf(),
        ensures
            match begin_payment_rule(self@, caller@, id) {
                Ok(payment) => r is Ok && r->Ok_0.model() == payment,
                Err(e) => r == Err::<Payment, Error>(e),
            },
    {
        if !self.users.contains_key(caller) {
            return Err(Error::Unauthorized);
        }
        let invoice = match self.invoices.get(&Id(id)) {
            Some(invoice) => invoice,
            None => { return Err(Error::NotFound); },
        };
        match invoice.status {
            InvoiceStatus::Paid => { return Ok(Payment::Settled); },
            InvoiceStatus::Unpaid => {},
        }
        let vehicle = match self.vehicles.get(&invoice.vehicle) {
            Some(vehicle) => vehicle,
            None => { return Err(Error::NotFound); },
        };
        match vehicle.provider {
            Some(provider) => Ok(
                Payment::Transfer { from: caller.clone(), to: provider, amount: invoice.total_cost },
            ),
            None => Err(Error::NotFound),
        }
    }

    /// The second half of paying an invoice, once the ledger has answered:
    /// `transferred` says whether the transfer went through.
    pub fn complete_payment(&mut self, id: u128, transferred: bool) -> (r: Result<(), Error>)
        requires
            old(self).wf(),
        ensures
            final(self).wf(),
            follows(
                complete_payment_rule(old(self)@, id, transferred),
                old(self)@,
                final(self)@,
                r,
            ),
    {
        let mut invoice = match self.invoices.get(&Id(id)) {
            Some(invoice) => invoice,
            None => { return Err(Error::NotFound); },
        };
        match invoice.status {
            InvoiceStatus::Paid => { return Ok(()); },
            InvoiceStatus::Unpaid => {},
        }
        if !transferred {
            return Err(Error::Internal);
        }
        invoice.status = InvoiceStatus::Paid;
        proof {
            lemma_invoice_storable(invoice.model());
            lemma_id_fits::<Invoice>(id, invoice.model());
            lemma_id_fits::<Present>(id, ());
        }
        let kept = self.invoices.insert(&Id(id), &invoice);
        let queued = self.paid_invoices.insert(&Id(id), &Present);
        assert(self@.paid_invoices =~= old(self)@.paid_invoices.insert(id));
        Ok(())
    }

    /// What the notifier is to be told of each invoice of a queue, in the
    /// order of the queue. All of them must be there, with their vehicles
    /// and customers.
    pub fn prepare_pending_invoices(&self, queue: &Table<Id, Present>) -> (r: Result<
        Vec<PendingInvoice>,
        Error,
    >)
        requires
            self.wf(),
            queue.wf(),
        ensures
            match r {
                Ok(list) => {
                    &&& forall|id: u128| queue@.contains_key(id) ==> can_notify(self@, id)
                    &&& ids_of(list@) == key_order::<Id>(queue@.dom())
                    &&& is_key_order::<Id>(ids_of(list@), queue@.dom())
                    &&& increasing(ids_of(list@))
                    &&& forall|i: int|
                        0 <= i < list@.len() ==> (#[trigger] list@[i]).model() == notice(
                            self@,
                            list@[i].id,
                        )
                },
                Err(e) => e == Error::NotFound && exists|id: u128|
                    queue@.contains_key(id) && !can_notify(self@, id),
            },
    {
        let ids = queue.keys();
        let ghost order = models::<Id>(ids@);
        let mut out: Vec<PendingInvoice> = Vec::new();
        let mut i: usize = 0;
        while i < ids.len()
            invariant
                self.wf(),
                i <= ids@.len(),
                order == models::<Id>(ids@),
                order.to_set() == queue@.dom(),
                order == key_order::<Id>(queue@.dom()),
                is_key_order::<Id>(order, queue@.dom()),
                out@.len() == i,
                forall|j: int|
                    0 <= j < i ==> (#[trigger] out@[j]).id == order[j] && can_notify(self@, order[j])
                        && out@[j].model() == notice(self@, order[j]),
            decreases ids@.len() - i,
        {
            let id = ids[i].0;
            assert(order[i as int] == id);
            assert(order.to_set().contains(id));
            assert(queue@.contains_key(id));
            let invoice = match self.invoices.get(&Id(id)) {
                Some(invoice) => invoice,
                None => {
                    assert(queue@.contains_key(id) && !can_notify(self@, id));
                    return Err(Error::NotFound);
                },
            };
            let vehicle = match self.vehicles.get(&invoice.vehicle) {
                Some(vehicle) => vehicle,
                None => {
                    assert(queue@.contains_key(id) && !can_notify(self@, id));
                    return Err(Error::NotFound);
                },
            };
            let customer = match self.users.get(&vehicle.customer) {
                Some(customer) => customer,
                None => {
                    assert(queue@.contains_key(id) && !can_notify(self@, id));
                    return Err(Error::NotFound);
                },
            };
            out.push(PendingInvoice { id, customer_email: customer.email, vehicle: invoice.vehicle });
            i += 1;
        }
        proof {
            law_id_key_order_is_increasing(order, queue@.dom());
            assert(ids_of(out@) =~= order);
            assert forall|id: u128| queue@.contains_key(id) implies can_notify(self@, id) by {
                assert(order.to_set().contains(id));
                let j = choose|j: int| 0 <= j < order.len() && order[j] == id;
                assert(out@[j].id == order[j]);
            }
        }
        Ok(out)
    }

    /// The invoices that wait to be announced, for a gateway.
    pub fn get_pending_invoices(&self, caller: &Principal) -> (r: Result<Vec<PendingInvoice>, Error>)
        requires
            self.wf(),
        ensures
            !is_gateway(self@, caller@) ==> r == Err::<Vec<PendingInvoice>, Error>(
                Error::Unauthorized,
            ),
            is_gateway(self@, caller@) ==> match r {
                Ok(list) => {
                    &&& forall|id: u128| self@.pending_invoices.contains(id) ==> can_notify(self@, id)
                    &&& ids_of(list@) == key_order::<Id>(self@.pending_invoices)
                    &&& is_key_order::<Id>(ids_of(list@), self@.pending_invoices)
                    &&& increasing(ids_of(list@))
                    &&& forall|i: int|
                        0 <= i < list@.len() ==> (#[trigger] list@[i]).model() == notice(
                            self@,
                            list@[i].id,
                        )
                },
                Err(e) => e == Error::NotFound && exists|id: u128|
                    self@.pending_invoices.contains(id) && !can_notify(self@, id),
            },
    {
        if !is_listed(&self.gateways, caller) {
            return Err(Error::Unauthorized);
        }
        self.prepare_pending_invoices(&self.pending_invoices)
    }

    /// The paid invoices that wait to be announced, for a gateway.
    pub fn get_paid_invoices(&self, caller: &Principal) -> (r: Result<Vec<PendingInvoice>, Error>)
        requires
            self.wf(),
        ensures
            !is_gateway(self@, caller@) ==> r == Err::<Vec<PendingInvoice>, Error>(
                Error::Unauthorized,
            ),
            is_gateway(self@, caller@) ==> match r {
                Ok(list) => {
                    &&& forall|id: u128| self@.paid_invoices.contains(id) ==> can_notify(self@, id)
                    &&& ids_of(list@) == key_order::<Id>(self@.paid_invoices)
                    &&& is_key_order::<Id>(ids_of(list@), self@.paid_invoices)
                    &&& increasing(ids_of(list@))
                    &&& forall|i: int|
                        0 <= i < list@.len() ==> (#[trigger] list@[i]).model() == notice(
                            self@,
                            list@[i].id,
                        )
                },
                Err(e) => e == Error::NotFound && exists|id: u128|
                    self@.paid_invoices.contains(id) && !can_notify(self@, id),
            },
    {
        if !is_listed(&self.gateways, caller) {
            return Err(Error::Unauthorized);
        }
        self.prepare_pending_invoices(&self.paid_invoices)
    }

    /// Takes invoices out of the queue of invoices to announce.
    pub fn delete_pending_invoices(&mut self, caller: &Principal, ids: &Vec<u128>) -> (r: Result<
        (),
        Error,
    >)
        requires
            old(self).wf(),
        ensures
            final(self).wf(),
            follows(
                delete_pending_invoices_rule(old(self)@, caller@, ids@),
                old(self)@,
                final(self)@,
                r,
            ),
    {
        if !is_listed(&self.gateways, caller) {
            return Err(Error::Unauthorized);
        }
        let mut i: usize = 0;
        assert(self@.pending_invoices =~= old(self)@.pending_invoices.difference(
            ids@.take(0).to_set(),
        ));
        while i < ids.len()
            invariant
                self.wf(),
                numbered(old(self)@),
                i <= ids@.len(),
                self@.pending_invoices == old(self)@.pending_invoices.difference(
                    ids@.take(i as int).to_set(),
                ),
                self@ == (crate::rules::StateView {
                    pending_invoices: self@.pending_invoices,
                    ..old(self)@
                }),
            decreases ids@.len() - i,
        {
            let ghost before = self@.pending_invoices;
            self.pending_invoices.remove(&Id(ids[i]));
            proof {
                let done = ids@.take(i as int);
                let next = ids@.take(i + 1);
                assert(next =~= done.push(ids@[i as int]));
                assert forall|x: u128| next.to_set().contains(x) <==> done.to_set().contains(x) || x
                    == ids@[i as int] by {
                    if done.to_set().contains(x) {
                        let j = choose|j: int| 0 <= j < done.len() && done[j] == x;
                        assert(next[j] == x);
                    }
                    if x == ids@[i as int] {
                        assert(next[i as int] == x);
                    }
                }
                assert(self@.pending_invoices =~= old(self)@.pending_invoices.difference(
                    next.to_set(),
                ));
            }
            i += 1;
        }
        assert(ids@.take(ids@.len() as int) =~= ids@);
        Ok(())
    }

    /// Takes invoices out of the queue of paid invoices to announce.
    pub fn delete_paid_invoices(&mut self, caller: &Principal, ids: &Vec<u128>) -> (r: Result<
        (),
        Error,
    >)
        requires
            old(self).wf(),
        ensures
            final(self).wf(),
            follows(
                delete_paid_invoices_rule(old(self)@, caller@, ids@),
                old(self)@,
                final(self)@,
                r,
            ),
    {
        if !is_listed(&self.gateways, caller) {
            return Err(Error::Unauthorized);
        }
        let mut i: usize = 0;
        assert(self@.paid_invoices =~= old(self)@.paid_invoices.difference(ids@.take(0).to_set()));
        while i < ids.len()
            invariant
                self.wf(),
                numbered(old(self)@),
                i <= ids@.len(),
                self@.paid_invoices == old(self)@.paid_invoices.difference(
                    ids@.take(i as int).to_set(),
                ),
                self@ == (crate::rules::StateView {
                    paid_invoices: self@.paid_invoices,
                    ..old(self)@
                }),
            decreases ids@.len() - i,
        {
            self.paid_invoices.remove(&Id(ids[i]));
            proof {
                let done = ids@.take(i as int);
                let next = ids@.take(i + 1);
                assert(next =~= done.push(ids@[i as int]));
                assert forall|x: u128| next.to_set().contains(x) <==> done.to_set().contains(x) || x
                    == ids@[i as int] by {
                    if done.to_set().contains(x) {
                        let j = choose|j: int| 0 <= j < done.len() && done[j] == x;
                        assert(next[j] == x);
                    }
                    if x == ids@[i as int] {
                        assert(next[i as int] == x);
                    }
                }
                assert(self@.paid_invoices =~= old(self)@.paid_invoices.difference(next.to_set()));
            }
            i += 1;
        }
        assert(ids@.take(ids@.len() as int) =~= ids@);
        Ok(())
    }
}

} // verus!
