//! The state of the service and its operations on admins, users, firmware
//! requests and vehicles.

use vstd::prelude::*;
use crate::codec::{lemma_bytes_enc_len, models, Persist};
use crate::error::Error;
use crate::principal::Principal;
use crate::records::{Agreement, Invoice, User, Vehicle};
use crate::rules::{
    add_admin_rule, delete_admin_rule, empty_state, delete_user_rule, follows,
    get_firmware_requests_by_user_rule, get_user_rule, is_admin, is_canister, is_gateway, is_user,
    new_user, numbered, register_user_rule, request_firmware_rule, storable, StateView,
};
use crate::store::{bytes_lt, open_regions, Regions};
use crate::table::{
    fits, is_key_order, key_order, law_id_key_order_is_increasing, Id, Present, Table,
};

verus! {

/// The region of stable memory that holds the admins.
pub const ADMINS_REGION: u8 = 1;

/// The region that holds the users.
pub const USERS_REGION: u8 = 2;

/// The region that holds the agreements.
pub const AGREEMENTS_REGION: u8 = 3;

/// The region that holds the open firmware requests.
pub const FIRMWARE_REQUESTS_REGION: u8 = 4;

/// The region that holds the vehicles.
pub const VEHICLES_REGION: u8 = 5;

/// The region that holds the invoices.
pub const INVOICES_REGION: u8 = 6;

/// The region that holds the invoices to announce.
pub const PENDING_INVOICES_REGION: u8 = 7;

/// The region that holds the paid invoices to announce.
pub const PAID_INVOICES_REGION: u8 = 8;

/// Everything the service keeps: one table for each kind of thing, the two
/// counters that number agreements and invoices, and who the gateways and
/// the canister are.
pub struct State {
    pub(crate) admins: Table<Principal, Present>,
    pub(crate) users: Table<Principal, User>,
    pub(crate) agreements: Table<Id, Agreement>,
    pub(crate) firmware_requests: Table<Principal, Present>,
    pub(crate) vehicles: Table<Principal, Vehicle>,
    pub(crate) invoices: Table<Id, Invoice>,
    pub(crate) pending_invoices: Table<Id, Present>,
    pub(crate) paid_invoices: Table<Id, Present>,
    pub(crate) agreement_counter: u128,
    pub(crate) invoice_counter: u128,
    pub(crate) gateways: Vec<Principal>,
    pub(crate) canister: Principal,
}

/// A key made of a principal is short enough for any table.
pub proof fn lemma_principal_fits<V: Persist>(k: Seq<u8>, v: V::Model)
    requires
        Principal::valid(k),
    ensures
        fits::<Principal, V>(k, v) == storable::<V>(v),
{
    lemma_bytes_enc_len(k);
}

/// A key made of a number is short enough for any table.
pub proof fn lemma_id_fits<V: Persist>(k: u128, v: V::Model)
    ensures
        fits::<Id, V>(k, v) == storable::<V>(v),
{
    crate::table::lemma_digits_len(k as nat, 16);
}

/// Whether a record is short enough for a table to hold.
pub fn is_storable<T: Persist>(record: &T) -> (r: bool)
    ensures
        r == storable::<T>(record.model()),
        T::valid(record.model()),
{
    crate::codec::encode(record).len() <= u32::MAX as usize
}

/// Puts `p` on a list that is used as a set.
pub fn add_principal(list: &mut Vec<Principal>, p: &Principal)
    ensures
        models::<Principal>(final(list)@) == crate::rules::with_member(
            models::<Principal>(old(list)@),
            p@,
        ),
{
    if !is_listed(list, p) {
        list.push(p.clone());
        assert(models::<Principal>(list@) =~= models::<Principal>(old(list)@).push(p@));
    }
}

/// Whether `x` is one of the numbers of the list.
pub fn is_numbered(list: &Vec<u128>, x: u128) -> (r: bool)
    ensures
        r == models::<u128>(list@).contains(x),
{
    let mut i: usize = 0;
    while i < list.len()
        invariant
            i <= list@.len(),
            forall|j: int| 0 <= j < i ==> models::<u128>(list@)[j] != x,
        decreases list@.len() - i,
    {
        if list[i] == x {
            assert(models::<u128>(list@)[i as int] == x);
            return true;
        }
        i += 1;
    }
    false
}

/// Puts `x` on a list that is used as a set.
pub fn add_number(list: &mut Vec<u128>, x: u128)
    ensures
        models::<u128>(final(list)@) == crate::rules::with_member(models::<u128>(old(list)@), x),
{
    if !is_numbered(list, x) {
        list.push(x);
        assert(models::<u128>(list@) =~= models::<u128>(old(list)@).push(x));
    }
}

/// The largest number of a set of keys, or zero where the set is empty:
/// the last of the keys in the order of their table.
pub open spec fn top(keys: Set<u128>) -> u128 {
    let order = key_order::<Id>(keys);
    if order.len() == 0 {
        0
    } else {
        order.last()
    }
}

/// The largest number of the keys of a table is the top of its keys, and
/// no key is above it.
pub proof fn lemma_largest_is_top(ids: Seq<Id>, keys: Set<u128>, best: u128)
    requires
        models::<Id>(ids) == key_order::<Id>(keys),
        is_key_order::<Id>(models::<Id>(ids), keys),
        forall|j: int| 0 <= j < ids.len() ==> (#[trigger] ids[j]).0 <= best,
        ids.len() == 0 ==> best == 0,
        ids.len() > 0 ==> exists|j: int| 0 <= j < ids.len() && (#[trigger] ids[j]).0 == best,
    ensures
        best == top(keys),
        forall|id: u128| keys.contains(id) ==> id <= best,
{
    let order = models::<Id>(ids);
    law_id_key_order_is_increasing(order, keys);
    if ids.len() > 0 {
        let j = choose|j: int| 0 <= j < ids.len() && (#[trigger] ids[j]).0 == best;
        let last = ids.len() - 1;
        assert(order[j] == ids[j].0);
        assert(order[last] == ids[last].0);
        assert(order.last() == order[last]);
        if j < last {
            assert(order[j] < order[last]);
        }
    }
    assert forall|id: u128| keys.contains(id) implies id <= best by {
        assert(order.to_set().contains(id));
        let k = choose|k: int| 0 <= k < order.len() && order[k] == id;
        assert(ids[k].0 == id);
    }
}

/// The largest number of a list, or zero for an empty list.
pub fn largest(ids: &Vec<Id>) -> (r: u128)
    ensures
        forall|j: int| 0 <= j < ids@.len() ==> (#[trigger] ids@[j]).0 <= r,
        ids@.len() == 0 ==> r == 0,
        ids@.len() > 0 ==> exists|j: int| 0 <= j < ids@.len() && (#[trigger] ids@[j]).0 == r,
{
    let mut best: u128 = 0;
    let mut i: usize = 0;
    while i < ids.len()
        invariant
            i <= ids@.len(),
            forall|j: int| 0 <= j < i ==> (#[trigger] ids@[j]).0 <= best,
            i == 0 ==> best == 0,
            i > 0 ==> exists|j: int| 0 <= j < i && (#[trigger] ids@[j]).0 == best,
        decreases ids@.len() - i,
    {
        if i == 0 || ids[i].0 > best {
            best = ids[i].0;
        }
        i += 1;
    }
    best
}

/// Whether `p` is one of the principals of the list.
pub fn is_listed(list: &Vec<Principal>, p: &Principal) -> (r: bool)
    ensures
        r == models::<Principal>(list@).contains(p@),
{
    let mut i: usize = 0;
    while i < list.len()
        invariant
            i <= list@.len(),
            forall|j: int| 0 <= j < i ==> models::<Principal>(list@)[j] != p@,
        decreases list@.len() - i,
    {
        if list[i].equals(p) {
            assert(models::<Principal>(list@)[i as int] == p@);
            return true;
        }
        i += 1;
    }
    false
}

impl State {
    /// What the state stands for.
    pub open(crate) spec fn view(&self) -> StateView {
        StateView {
            admins: self.admins@.dom(),
            users: self.users@,
            agreements: self.agreements@,
            firmware_requests: self.firmware_requests@.dom(),
            vehicles: self.vehicles@,
            invoices: self.invoices@,
            pending_invoices: self.pending_invoices@.dom(),
            paid_invoices: self.paid_invoices@.dom(),
            agreement_counter: self.agreement_counter,
            invoice_counter: self.invoice_counter,
            gateways: models::<Principal>(self.gateways@).to_set(),
            canister: self.canister@,
        }
    }

    /// That every table holds nothing but keys and records of its kind.
    pub open(crate) spec fn wf(&self) -> bool {
        &&& self.admins.wf()
        &&& self.users.wf()
        &&& self.agreements.wf()
        &&& self.firmware_requests.wf()
        &&& self.vehicles.wf()
        &&& self.invoices.wf()
        &&& self.pending_invoices.wf()
        &&& self.paid_invoices.wf()
        &&& numbered(self.view())
    }

    /// The state of a service that starts from nothing: every table is
    /// emptied and both counters stand at zero.
    pub fn fresh(canister: Principal, gateways: Vec<Principal>) -> (s: State)
        ensures
            s.wf(),
            s@ == empty_state(canister@, models::<Principal>(gateways@).to_set()),
    {
        let regions = open_regions();
        let s = State {
            admins: Table::fresh(&regions, ADMINS_REGION),
            users: Table::fresh(&regions, USERS_REGION),
            agreements: Table::fresh(&regions, AGREEMENTS_REGION),
            firmware_requests: Table::fresh(&regions, FIRMWARE_REQUESTS_REGION),
            vehicles: Table::fresh(&regions, VEHICLES_REGION),
            invoices: Table::fresh(&regions, INVOICES_REGION),
            pending_invoices: Table::fresh(&regions, PENDING_INVOICES_REGION),
            paid_invoices: Table::fresh(&regions, PAID_INVOICES_REGION),
            agreement_counter: 0,
            invoice_counter: 0,
            gateways,
            canister,
        };
        proof {
            assert(s@.admins =~= Set::<Seq<u8>>::empty());
            assert(s@.firmware_requests =~= Set::<Seq<u8>>::empty());
            assert(s@.pending_invoices =~= Set::<u128>::empty());
            assert(s@.paid_invoices =~= Set::<u128>::empty());
            assert(s@ == empty_state(canister@, models::<Principal>(gateways@).to_set()));
        }
        s
    }

    /// The state that stable memory holds, for a service that starts
    /// again: every table is read as it is, and each counter stands at the
    /// largest number in its table. `None` where a table holds bytes that
    /// are no key or no record of its kind.
    pub fn open(canister: Principal, gateways: Vec<Principal>) -> (r: Option<State>)
        ensures
            r is Some ==> r->0.wf() && r->0@.gateways == models::<Principal>(gateways@).to_set()
                && r->0@.canister == canister@,
    {
        let regions = open_regions();
        State::load(&regions, canister, gateways)
    }

    /// The state read once more from the memory in which it lives, as a
    /// service reads it that starts again: it is the state that was there.
    pub fn reopen(self) -> (r: Option<State>)
        requires
            self.wf(),
        ensures
            r is Some,
            r->0.wf(),
            r->0@ == self@,
    {
        let admins = self.admins.reopen();
        let users = self.users.reopen();
        let agreements = self.agreements.reopen();
        let firmware_requests = self.firmware_requests.reopen();
        let vehicles = self.vehicles.reopen();
        let invoices = self.invoices.reopen();
        let pending_invoices = self.pending_invoices.reopen();
        let paid_invoices = self.paid_invoices.reopen();
        match (
            admins,
            users,
            agreements,
            firmware_requests,
            vehicles,
            invoices,
            pending_invoices,
            paid_invoices,
        ) {
            (
                Some(admins),
                Some(users),
                Some(agreements),
                Some(firmware_requests),
                Some(vehicles),
                Some(invoices),
                Some(pending_invoices),
                Some(paid_invoices),
            ) => Some(
                State {
                    admins,
                    users,
                    agreements,
                    firmware_requests,
                    vehicles,
                    invoices,
                    pending_invoices,
                    paid_invoices,
                    agreement_counter: self.agreement_counter,
                    invoice_counter: self.invoice_counter,
                    gateways: self.gateways,
                    canister: self.canister,
                },
            ),
            _ => None,
        }
    }

    /// The state that the regions hold.
    fn load(regions: &Regions, canister: Principal, gateways: Vec<Principal>) -> (r: Option<State>)
        ensures
            r is Some ==> r->0.wf() && r->0@.gateways == models::<Principal>(gateways@).to_set()
                && r->0@.canister == canister@,
    {
        let admins = match Table::open(regions, ADMINS_REGION) {
            Some(table) => table,
            None => { return None; },
        };
        let users = match Table::open(regions, USERS_REGION) {
            Some(table) => table,
            None => { return None; },
        };
        let agreements: Table<Id, Agreement> = match Table::open(regions, AGREEMENTS_REGION) {
            Some(table) => table,
            None => { return None; },
        };
        let firmware_requests = match Table::open(regions, FIRMWARE_REQUESTS_REGION) {
            Some(table) => table,
            None => { return None; },
        };
        let vehicles = match Table::open(regions, VEHICLES_REGION) {
            Some(table) => table,
            None => { return None; },
        };
        let invoices: Table<Id, Invoice> = match Table::open(regions, INVOICES_REGION) {
            Some(table) => table,
            None => { return None; },
        };
        let pending_invoices = match Table::open(regions, PENDING_INVOICES_REGION) {
            Some(table) => table,
            None => { return None; },
        };
        let paid_invoices = match Table::open(regions, PAID_INVOICES_REGION) {
            Some(table) => table,
            None => { return None; },
        };
        Some(
            State::assemble(
                admins,
                users,
                agreements,
                firmware_requests,
                vehicles,
                invoices,
                pending_invoices,
                paid_invoices,
                canister,
                gateways,
            ),
        )
    }

    /// The state made of eight tables as they are: each counter stands at
    /// the largest number in its table, or at zero where the table is
    /// empty. This is what opening a state does with the tables that it
    /// found.
    pub fn assemble(
        admins: Table<Principal, Present>,
        users: Table<Principal, User>,
        agreements: Table<Id, Agreement>,
        firmware_requests: Table<Principal, Present>,
        vehicles: Table<Principal, Vehicle>,
        invoices: Table<Id, Invoice>,
        pending_invoices: Table<Id, Present>,
        paid_invoices: Table<Id, Present>,
        canister: Principal,
        gateways: Vec<Principal>,
    ) -> (s: State)
        requires
            admins.wf(),
            users.wf(),
            agreements.wf(),
            firmware_requests.wf(),
            vehicles.wf(),
            invoices.wf(),
            pending_invoices.wf(),
            paid_invoices.wf(),
        ensures
            s.wf(),
            s@ == (StateView {
                admins: admins@.dom(),
                users: users@,
                agreements: agreements@,
                firmware_requests: firmware_requests@.dom(),
                vehicles: vehicles@,
                invoices: invoices@,
                pending_invoices: pending_invoices@.dom(),
                paid_invoices: paid_invoices@.dom(),
                agreement_counter: top(agreements@.dom()),
                invoice_counter: top(invoices@.dom()),
                gateways: models::<Principal>(gateways@).to_set(),
                canister: canister@,
            }),
    {
        let agreement_ids = agreements.keys();
        let invoice_ids = invoices.keys();
        let agreement_counter = largest(&agreement_ids);
        let invoice_counter = largest(&invoice_ids);
        proof {
            lemma_largest_is_top(agreement_ids@, agreements@.dom(), agreement_counter);
            lemma_largest_is_top(invoice_ids@, invoices@.dom(), invoice_counter);
        }
        State {
            admins,
            users,
            agreements,
            firmware_requests,
            vehicles,
            invoices,
            pending_invoices,
            paid_invoices,
            agreement_counter,
            invoice_counter,
            gateways,
            canister,
        }
    }

    /// Whether the caller is an admin.
    pub fn is_admin(&self, caller: &Principal) -> (r: bool)
        ensures
            r == is_admin(self@, caller@),
    {
        self.admins.contains_key(caller)
    }

    /// Whether the caller is a registered user.
    pub fn is_user(&self, caller: &Principal) -> (r: bool)
        ensures
            r == is_user(self@, caller@),
    {
        self.users.contains_key(caller)
    }

    /// Whether the caller is one of the gateways.
    pub fn is_gateway(&self, caller: &Principal) -> (r: bool)
        ensures
            r == is_gateway(self@, caller@),
    {
        is_listed(&self.gateways, caller)
    }

    /// Whether the caller is the canister itself.
    pub fn is_canister(&self, caller: &Principal) -> (r: bool)
        ensures
            r == is_canister(self@, caller@),
    {
        self.canister.equals(caller)
    }

    /// Makes the caller the first admin, or lets an admin add another.
    pub fn add_admin(&mut self, caller: &Principal, new_admin: &Principal) -> (r: Result<(), Error>)
        requires
            old(self).wf(),
        ensures
            final(self).wf(),
            follows(add_admin_rule(old(self)@, caller@, new_admin@), old(self)@, final(self)@, r),
    {
        let vacant = self.admins.is_empty();
        let known = self.admins.contains_key(caller);
        let listed = self.admins.contains_key(new_admin);
        proof {
            if vacant {
                assert(self@.admins =~= Set::empty());
            }
            lemma_principal_fits::<Present>(caller@, ());
            lemma_principal_fits::<Present>(new_admin@, ());
        }
        if vacant {
            let stored = self.admins.insert(caller, &Present);
            assert(self@.admins =~= old(self)@.admins.insert(caller@));
            Ok(())
        } else if !known {
            Err(Error::Unauthorized)
        } else {
            let stored = self.admins.insert(new_admin, &Present);
            assert(self@.admins =~= old(self)@.admins.insert(new_admin@));
            Ok(())
        }
    }

    /// Lets an admin take another admin out.
    pub fn delete_admin(&mut self, caller: &Principal, admin: &Principal) -> (r: Result<(), Error>)
        requires
            old(self).wf(),
        ensures
            final(self).wf(),
            follows(delete_admin_rule(old(self)@, caller@, admin@), old(self)@, final(self)@, r),
    {
        if !self.admins.contains_key(caller) {
            return Err(Error::Unauthorized);
        }
        if !self.admins.contains_key(admin) {
            return Err(Error::NotFound);
        }
        if admin.equals(caller) {
            return Err(Error::InvalidSigner);
        }
        self.admins.remove(admin);
        assert(self@.admins =~= old(self)@.admins.remove(admin@));
        Ok(())
    }

    /// Lets an admin register a user.
    pub fn register_user(&mut self, caller: &Principal, user: &Principal, email: Option<String>) -> (r:
        Result<(), Error>)
        requires
            old(self).wf(),
        ensures
            final(self).wf(),
            follows(
                register_user_rule(old(self)@, caller@, user@, email.model()),
                old(self)@,
                final(self)@,
                r,
            ),
    {
        if !self.admins.contains_key(caller) {
            return Err(Error::Unauthorized);
        }
        if self.users.contains_key(user) {
            return Err(Error::AlreadyExists);
        }
        let record = User { vehicles: Vec::new(), agreements: Vec::new(), email };
        proof {
            assert(record.model().vehicles =~= Seq::<Seq<u8>>::empty());
            assert(record.model().agreements =~= Seq::<u128>::empty());
            assert(record.model() == new_user(email.model()));
            lemma_principal_fits::<User>(user@, record.model());
        }
        if !self.users.insert(user, &record) {
            return Err(Error::Internal);
        }
        Ok(())
    }

    /// Lets an admin take a user out.
    pub fn delete_user(&mut self, caller: &Principal, user: &Principal) -> (r: Result<(), Error>)
        requires
            old(self).wf(),
        ensures
            final(self).wf(),
            follows(delete_user_rule(old(self)@, caller@, user@), old(self)@, final(self)@, r),
    {
        if !self.admins.contains_key(caller) {
            return Err(Error::Unauthorized);
        }
        if !self.users.contains_key(user) {
            return Err(Error::NotFound);
        }
        self.users.remove(user);
        Ok(())
    }

    /// The caller's own record.
    pub fn get_user(&self, caller: &Principal) -> (r: Result<User, Error>)
        requires
            self.wf(),
        ensures
            match get_user_rule(self@, caller@) {
                Ok(u) => r is Ok && r->Ok_0.model() == u,
                Err(e) => r == Err::<User, Error>(e),
            },
    {
        match self.users.get(caller) {
            Some(user) => Ok(user),
            None => Err(Error::Unauthorized),
        }
    }

    /// Opens a firmware request for the caller.
    pub fn request_firmware(&mut self, caller: &Principal) -> (r: Result<(), Error>)
        requires
            old(self).wf(),
        ensures
            final(self).wf(),
            follows(request_firmware_rule(old(self)@, caller@), old(self)@, final(self)@, r),
    {
        if !self.users.contains_key(caller) {
            return Err(Error::Unauthorized);
        }
        if self.firmware_requests.contains_key(caller) {
            return Err(Error::AlreadyExists);
        }
        proof {
            lemma_principal_fits::<Present>(caller@, ());
        }
        let stored = self.firmware_requests.insert(caller, &Present);
        assert(self@.firmware_requests =~= old(self)@.firmware_requests.insert(caller@));
        Ok(())
    }

    /// The user whose firmware request comes first in the table's order,
    /// for a gateway to build firmware for.
    pub fn get_firmware_requests(&self, caller: &Principal) -> (r: Result<Principal, Error>)
        requires
            self.wf(),
        ensures
            !is_gateway(self@, caller@) ==> r == Err::<Principal, Error>(Error::Unauthorized),
            is_gateway(self@, caller@) && self@.firmware_requests =~= Set::empty() ==> r == Err::<
                Principal,
                Error,
            >(Error::NotFound),
            is_gateway(self@, caller@) && !(self@.firmware_requests =~= Set::empty()) ==> r is Ok
                && self@.firmware_requests.contains(r->Ok_0@) && forall|other: Seq<u8>| #[trigger]
                self@.firmware_requests.contains(other) && other != r->Ok_0@ ==> bytes_lt(
                    Principal::enc(r->Ok_0@),
                    Principal::enc(other),
                ),
    {
        if !is_listed(&self.gateways, caller) {
            return Err(Error::Unauthorized);
        }
        match self.firmware_requests.first_key() {
            Some(user) => Ok(user),
            None => {
                assert(self@.firmware_requests =~= Set::empty());
                Err(Error::NotFound)
            },
        }
    }

    /// Whether the caller has a firmware request open.
    pub fn get_firmware_requests_by_user(&self, caller: &Principal) -> (r: Result<(), Error>)
        requires
            self.wf(),
        ensures
            r == get_firmware_requests_by_user_rule(self@, caller@),
    {
        if !self.users.contains_key(caller) {
            return Err(Error::Unauthorized);
        }
        if !self.firmware_requests.contains_key(caller) {
            return Err(Error::NotFound);
        }
        Ok(())
    }
}

} // verus!
