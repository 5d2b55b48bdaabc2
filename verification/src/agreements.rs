//! The operations on agreements: a provider offers one, its customer signs
//! it and puts vehicles under it.

use vstd::prelude::*;
use crate::codec::{models, Persist};
use crate::decimal::{decimal_of_text, parse_decimal};
use crate::error::Error;
use crate::principal::Principal;
use crate::records::{Agreement, AgreementConditions, AgreementState, User, Vehicle};
use crate::rules::{
    answers, create_agreement_rule, follows, get_user_agreements_rule,
    get_vehicles_by_agreement_rule, link_vehicle_rule, new_agreement, sign_agreement_rule,
    lemma_with_member, users_with_agreement, with_member,
};
use crate::state::{
    add_number, add_principal, is_listed, is_storable, lemma_id_fits, lemma_principal_fits, State,
};
use crate::table::Id;

verus! {

impl State {
    /// Offers a customer an agreement at a price, in the caller's name;
    /// gives the number of the agreement.
    pub fn create_agreement(
        &mut self,
        caller: &Principal,
        name: String,
        customer: &Principal,
        gas_price: String,
    ) -> (r: Result<u128, Error>)
        requires
            old(self).wf(),
        ensures
            final(self).wf(),
            answers(
                create_agreement_rule(
                    old(self)@,
                    caller@,
                    name@,
                    customer@,
                    gas_price@,
                    decimal_of_text(gas_price@) is Some,
                ),
                old(self)@,
                final(self)@,
                r,
            ),
    {
        let priced = parse_decimal(gas_price.as_str()).is_some();
        self.record_agreement(caller, name, customer, gas_price, priced)
    }

    /// Offers a customer an agreement at a price of which `priced` says
    /// whether it is a decimal; gives the number of the agreement.
    pub fn record_agreement(
        &mut self,
        caller: &Principal,
        name: String,
        customer: &Principal,
        gas_price: String,
        priced: bool,
    ) -> (r: Result<u128, Error>)
        requires
            old(self).wf(),
        ensures
            final(self).wf(),
            answers(
                create_agreement_rule(old(self)@, caller@, name@, customer@, gas_price@, priced),
                old(self)@,
                final(self)@,
                r,
            ),
    {
        let mut provider = match self.users.get(caller) {
            Some(user) => user,
            None => { return Err(Error::Unauthorized); },
        };
        if !priced {
            return Err(Error::InvalidData);
        }
        let mut buyer = match self.users.get(customer) {
            Some(user) => user,
            None => { return Err(Error::NotFound); },
        };
        if self.agreement_counter == u128::MAX {
            return Err(Error::Internal);
        }
        let id: u128 = self.agreement_counter + 1;
        let agreement = Agreement {
            id,
            name,
            vh_provider: caller.clone(),
            vh_customer: customer.clone(),
            state: AgreementState::Unsigned,
            conditions: AgreementConditions { gas_price },
            vehicles: Vec::new(),
        };
        let same = caller.equals(customer);
        let ghost lender = provider.model();
        let ghost taker = buyer.model();
        add_number(&mut provider.agreements, id);
        add_number(&mut buyer.agreements, id);
        proof {
            assert(agreement.model().vehicles =~= Seq::<Seq<u8>>::empty());
            assert(agreement.model() == new_agreement(id, name@, caller@, customer@, gas_price@));
            let users = users_with_agreement(old(self)@.users, caller@, customer@, id);
            let lender_after = crate::records::UserView {
                agreements: with_member(lender.agreements, id),
                ..lender
            };
            let taker_after = crate::records::UserView {
                agreements: with_member(taker.agreements, id),
                ..taker
            };
            assert(provider.model() == lender_after);
            assert(buyer.model() == taker_after);
            lemma_with_member(lender.agreements, id);
            if same {
                assert(users[customer@] == lender_after);
                assert(users =~= old(self)@.users.insert(caller@, lender_after));
            } else {
                assert(users[customer@] == taker_after);
                assert(users[caller@] == lender_after);
            }
        }
        if same {
            if !is_storable(&agreement) || !is_storable(&provider) {
                return Err(Error::Internal);
            }
        } else {
            if !is_storable(&agreement) || !is_storable(&provider) || !is_storable(&buyer) {
                return Err(Error::Internal);
            }
        }
        proof {
            lemma_id_fits::<Agreement>(id, agreement.model());
            lemma_principal_fits::<User>(caller@, provider.model());
            lemma_principal_fits::<User>(customer@, buyer.model());
        }
        self.agreement_counter = id;
        let kept = self.agreements.insert(&Id(id), &agreement);
        let first = self.users.insert(caller, &provider);
        if !same {
            let second = self.users.insert(customer, &buyer);
        }
        Ok(id)
    }

    /// Lets the customer of an agreement sign it.
    pub fn sign_agreement(&mut self, caller: &Principal, id: u128) -> (r: Result<(), Error>)
        requires
            old(self).wf(),
        ensures
            final(self).wf(),
            follows(sign_agreement_rule(old(self)@, caller@, id), old(self)@, final(self)@, r),
    {
        if !self.users.contains_key(caller) {
            return Err(Error::Unauthorized);
        }
        let mut agreement = match self.agreements.get(&Id(id)) {
            Some(agreement) => agreement,
            None => { return Err(Error::NotFound); },
        };
        if !agreement.vh_customer.equals(caller) {
            return Err(Error::InvalidSigner);
        }
        match agreement.state {
            AgreementState::Signed => { return Err(Error::AlreadyExists); },
            AgreementState::Unsigned => {},
        }
        agreement.state = AgreementState::Signed;
        if !is_storable(&agreement) {
            return Err(Error::Internal);
        }
        proof {
            lemma_id_fits::<Agreement>(id, agreement.model());
        }
        let kept = self.agreements.insert(&Id(id), &agreement);
        Ok(())
    }

    /// Puts one of the caller's vehicles under an agreement of which the
    /// caller is the customer.
    pub fn link_vehicle(&mut self, caller: &Principal, id: u128, vehicle: &Principal) -> (r: Result<
        (),
        Error,
    >)
        requires
            old(self).wf(),
        ensures
            final(self).wf(),
            follows(
                link_vehicle_rule(old(self)@, caller@, id, vehicle@),
                old(self)@,
                final(self)@,
                r,
            ),
    {
        if !self.users.contains_key(caller) {
            return Err(Error::Unauthorized);
        }
        let mut agreement = match self.agreements.get(&Id(id)) {
            Some(agreement) => agreement,
            None => { return Err(Error::NotFound); },
        };
        if !agreement.vh_customer.equals(caller) {
            return Err(Error::InvalidSigner);
        }
        if is_listed(&agreement.vehicles, vehicle) {
            return Err(Error::AlreadyExists);
        }
        let mut record = match self.vehicles.get(vehicle) {
            Some(record) => record,
            None => { return Err(Error::NotFound); },
        };
        if !record.customer.equals(caller) {
            return Err(Error::InvalidSigner);
        }
        if record.agreement.is_some() {
            return Err(Error::AlreadyExists);
        }
        let provider = agreement.vh_provider.clone();
        let mut owner = match self.users.get(&provider) {
            Some(user) => user,
            None => { return Err(Error::NotFound); },
        };
        let ghost listed = agreement.model().vehicles;
        agreement.vehicles.push(vehicle.clone());
        record.agreement = Some(id);
        record.provider = Some(provider.clone());
        add_principal(&mut owner.vehicles, vehicle);
        proof {
            assert(agreement.model().vehicles =~= listed.push(vehicle@));
        }
        if !is_storable(&agreement) || !is_storable(&record) || !is_storable(&owner) {
            return Err(Error::Internal);
        }
        proof {
            lemma_id_fits::<Agreement>(id, agreement.model());
            lemma_principal_fits::<Vehicle>(vehicle@, record.model());
            lemma_principal_fits::<User>(provider@, owner.model());
        }
        let first = self.agreements.insert(&Id(id), &agreement);
        let second = self.vehicles.insert(vehicle, &record);
        let third = self.users.insert(&provider, &owner);
        Ok(())
    }

    /// The vehicles under an agreement.
    pub fn get_vehicles_by_agreement(&self, caller: &Principal, id: u128) -> (r: Result<
        Vec<Principal>,
        Error,
    >)
        requires
            self.wf(),
        ensures
            match get_vehicles_by_agreement_rule(self@, caller@, id) {
                Ok(vehicles) => r is Ok && r->Ok_0.model() == vehicles,
                Err(e) => r == Err::<Vec<Principal>, Error>(e),
            },
    {
        if !self.users.contains_key(caller) {
            return Err(Error::Unauthorized);
        }
        match self.agreements.get(&Id(id)) {
            Some(agreement) => Ok(agreement.vehicles),
            None => Err(Error::NotFound),
        }
    }

    /// The agreements that the caller has a part in.
    pub fn get_user_agreements(&self, caller: &Principal) -> (r: Result<Vec<Agreement>, Error>)
        requires
            self.wf(),
        ensures
            match get_user_agreements_rule(self@, caller@) {
                Ok(agreements) => r is Ok && r->Ok_0.model() == agreements,
                Err(e) => r == Err::<Vec<Agreement>, Error>(e),
            },
    {
        let user = match self.users.get(caller) {
            Some(user) => user,
            None => { return Err(Error::Unauthorized); },
        };
        let ghost ids = self@.users[caller@].agreements;
        let mut out: Vec<Agreement> = Vec::new();
        let mut i: usize = 0;
        while i < user.agreements.len()
            invariant
                self.wf(),
                i <= user.agreements@.len(),
                ids == models::<u128>(user.agreements@),
                self@.users.contains_key(caller@),
                ids == self@.users[caller@].agreements,
                out@.len() == i,
                forall|j: int|
                    0 <= j < i ==> self@.agreements.contains_key(#[trigger] ids[j]) && out@[j].model()
                        == self@.agreements[ids[j]],
            decreases user.agreements@.len() - i,
        {
            assert(ids[i as int] == user.agreements@[i as int]);
            match self.agreements.get(&Id(user.agreements[i])) {
                Some(agreement) => {
                    out.push(agreement);
                },
                None => {
                    assert(!self@.agreements.contains_key(
                        self@.users[caller@].agreements[i as int],
                    ));
                    return Err(Error::NotFound);
                },
            }
            i += 1;
        }
        proof {
            assert(out.model() =~= Seq::new(ids.len(), |i: int| self@.agreements[ids[i]]));
        }
        Ok(out)
    }
}

} // verus!
