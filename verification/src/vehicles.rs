//! The operations on vehicles: recording one when its firmware is
//! uploaded, reading and switching it, and taking in its signed samples.

use vstd::prelude::*;
use crate::calendar::{civil_date, date_of, Date};
use crate::codec::Persist;
use crate::crypto::{public_key_parses, signature_parses, signature_verifies};
use crate::error::Error;
use crate::principal::{self_authenticating_id, Principal};
use crate::records::{User, Vehicle};
use crate::rules::{
    answers, checks_of, follows, get_aggregated_data_rule, get_vehicle_rule, new_vehicle,
    sample_on, store_telemetry_rule, turn_on_off_vehicle_rule, upload_firmware_rule, Checks,
    StoreTelemetryResponse,
};
use crate::state::{add_principal, is_listed, is_storable, lemma_principal_fits, State};
use crate::telemetry::{AccumulatedTelemetryYearly, Sample};
use crate::wire::{decode_telemetry, payload_of, StoreTelemetryRequest};

verus! {

impl State {
    /// Records the vehicle that a public key names, with the firmware that
    /// a gateway built for a customer.
    pub fn upload_firmware(
        &mut self,
        caller: &Principal,
        customer: &Principal,
        public_key: Vec<u8>,
        arch: String,
        firmware: Vec<u8>,
    ) -> (r: Result<(), Error>)
        requires
            old(self).wf(),
        ensures
            final(self).wf(),
            follows(
                upload_firmware_rule(
                    old(self)@,
                    caller@,
                    customer@,
                    self_authenticating_id(public_key@),
                    public_key@,
                    arch@,
                    firmware@,
                ),
                old(self)@,
                final(self)@,
                r,
            ),
    {
        let id = Principal::self_authenticating(public_key.as_slice());
        self.register_vehicle(caller, customer, &id, public_key, arch, firmware)
    }

    /// Records a vehicle under the identity `id`, with the firmware that a
    /// gateway built for a customer.
    pub fn register_vehicle(
        &mut self,
        caller: &Principal,
        customer: &Principal,
        id: &Principal,
        public_key: Vec<u8>,
        arch: String,
        firmware: Vec<u8>,
    ) -> (r: Result<(), Error>)
        requires
            old(self).wf(),
        ensures
            final(self).wf(),
            follows(
                upload_firmware_rule(
                    old(self)@,
                    caller@,
                    customer@,
                    id@,
                    public_key@,
                    arch@,
                    firmware@,
                ),
                old(self)@,
                final(self)@,
                r,
            ),
    {
        if !is_listed(&self.gateways, caller) {
            return Err(Error::Unauthorized);
        }
        let mut owner = match self.users.get(customer) {
            Some(user) => user,
            None => { return Err(Error::NotFound); },
        };
        let ghost key = public_key@;
        let ghost code = firmware@;
        let vehicle = Vehicle {
            provider: None,
            customer: customer.clone(),
            agreement: None,
            public_key,
            arch,
            firmware,
            on_off: true,
            telemetry: Vec::new(),
            accumulated_telemetry: Vec::new(),
            invoices: Vec::new(),
        };
        add_principal(&mut owner.vehicles, id);
        proof {
            let m = vehicle.model();
            assert(m.public_key =~= key);
            assert(m.firmware =~= code);
            assert(m.telemetry =~= Seq::<Sample>::empty());
            assert(m.accumulated_telemetry =~= Seq::<crate::telemetry::YearView>::empty());
            assert(m.invoices =~= Seq::<u128>::empty());
            assert(m == new_vehicle(customer@, key, arch@, code));
        }
        if !is_storable(&vehicle) || !is_storable(&owner) {
            return Err(Error::Internal);
        }
        let known = self.vehicles.contains_key(id);
        proof {
            lemma_principal_fits::<Vehicle>(id@, vehicle.model());
            lemma_principal_fits::<User>(customer@, owner.model());
        }
        self.firmware_requests.remove(customer);
        let kept = self.vehicles.insert(id, &vehicle);
        let listed = self.users.insert(customer, &owner);
        assert(self@.firmware_requests =~= old(self)@.firmware_requests.remove(customer@));
        Ok(())
    }

    /// The record of a vehicle, for its customer or its provider.
    pub fn get_vehicle(&self, caller: &Principal, vehicle: &Principal) -> (r: Result<Vehicle, Error>)
        requires
            self.wf(),
        ensures
            match get_vehicle_rule(self@, caller@, vehicle@) {
                Ok(v) => r is Ok && r->Ok_0.model() == v,
                Err(e) => r == Err::<Vehicle, Error>(e),
            },
    {
        if !self.users.contains_key(caller) {
            return Err(Error::Unauthorized);
        }
        let record = match self.vehicles.get(vehicle) {
            Some(record) => record,
            None => { return Err(Error::NotFound); },
        };
        let provides = match &record.provider {
            Some(provider) => provider.equals(caller),
            None => false,
        };
        if !record.customer.equals(caller) && !provides {
            return Err(Error::InvalidSigner);
        }
        Ok(record)
    }

    /// Lets the provider of a vehicle switch it on or off.
    pub fn turn_on_off_vehicle(&mut self, caller: &Principal, vehicle: &Principal, on_off: bool) -> (r:
        Result<(), Error>)
        requires
            old(self).wf(),
        ensures
            final(self).wf(),
            follows(
                turn_on_off_vehicle_rule(old(self)@, caller@, vehicle@, on_off),
                old(self)@,
                final(self)@,
                r,
            ),
    {
        if !self.users.contains_key(caller) {
            return Err(Error::Unauthorized);
        }
        let mut record = match self.vehicles.get(vehicle) {
            Some(record) => record,
            None => { return Err(Error::NotFound); },
        };
        let provides = match &record.provider {
            Some(provider) => provider.equals(caller),
            None => false,
        };
        if !provides {
            return Err(Error::InvalidSigner);
        }
        record.on_off = on_off;
        if !is_storable(&record) {
            return Err(Error::Internal);
        }
        proof {
            lemma_principal_fits::<Vehicle>(vehicle@, record.model());
        }
        let kept = self.vehicles.insert(vehicle, &record);
        Ok(())
    }

    /// The totals of a vehicle by year, month and day.
    pub fn get_aggregated_data(&self, caller: &Principal, vehicle: &Principal) -> (r: Result<
        Vec<AccumulatedTelemetryYearly>,
        Error,
    >)
        requires
            self.wf(),
        ensures
            match get_aggregated_data_rule(self@, caller@, vehicle@) {
                Ok(totals) => r is Ok && r->Ok_0.model() == totals,
                Err(e) => r == Err::<Vec<AccumulatedTelemetryYearly>, Error>(e),
            },
    {
        if !self.users.contains_key(caller) {
            return Err(Error::Unauthorized);
        }
        match self.vehicles.get(vehicle) {
            Some(record) => Ok(record.accumulated_telemetry),
            None => Err(Error::NotFound),
        }
    }

    /// Takes in a sample that a vehicle signed, at the moment `now` of the
    /// canister's clock, in nanoseconds since the Unix epoch.
    pub fn store_telemetry(
        &mut self,
        vehicle: &Principal,
        payload: &[u8],
        signature: &[u8],
        now: u64,
    ) -> (r: Result<StoreTelemetryResponse, Error>)
        requires
            old(self).wf(),
        ensures
            final(self).wf(),
            answers(
                store_telemetry_rule(
                    old(self)@,
                    vehicle@,
                    checks_of(old(self)@, vehicle@, payload@, signature@),
                    payload_of(payload@),
                    date_of(now),
                ),
                old(self)@,
                final(self)@,
                r,
            ),
    {
        let signature_formed = signature_parses(signature);
        let (key_formed, signed) = match self.vehicles.get(vehicle) {
            Some(record) => {
                assert(record.model().public_key =~= record.public_key@);
                (
                    public_key_parses(record.public_key.as_slice()),
                    signature_verifies(record.public_key.as_slice(), payload, signature),
                )
            },
            None => (false, false),
        };
        let request = decode_telemetry(payload);
        let day = civil_date(now);
        self.record_telemetry(vehicle, signature_formed, key_formed, signed, request, day)
    }

    /// Takes in a sample once its signature was checked: `signature_formed`,
    /// `key_formed` and `signed` are what the checks found, `request` is
    /// what the payload holds and `day` the date of the canister's clock.
    pub fn record_telemetry(
        &mut self,
        vehicle: &Principal,
        signature_formed: bool,
        key_formed: bool,
        signed: bool,
        request: Option<StoreTelemetryRequest>,
        day: Option<Date>,
    ) -> (r: Result<StoreTelemetryResponse, Error>)
        requires
            old(self).wf(),
        ensures
            final(self).wf(),
            answers(
                store_telemetry_rule(
                    old(self)@,
                    vehicle@,
                    Checks { signature_formed, key_formed, signed },
                    request,
                    day,
                ),
                old(self)@,
                final(self)@,
                r,
            ),
    {
        if !signature_formed {
            return Err(Error::InvalidSignatureFormat);
        }
        let mut record = match self.vehicles.get(vehicle) {
            Some(record) => record,
            None => { return Err(Error::NotFound); },
        };
        if !key_formed {
            return Err(Error::Internal);
        }
        if !signed {
            return Err(Error::InvalidSignature);
        }
        let request = match request {
            Some(request) => request,
            None => { return Err(Error::DecodeTelemetry); },
        };
        let day = match day {
            Some(day) => day,
            None => { return Err(Error::InvalidData); },
        };
        let on_off = record.on_off;
        let ghost before = record.model();
        record.telemetry.push(
            Sample {
                t_type: request.t_type,
                year: day.year,
                month: day.month,
                day: day.day,
                value: request.value,
            },
        );
        proof {
            assert(record.model().telemetry =~= before.telemetry.push(sample_on(request, day)));
        }
        if !is_storable(&record) {
            return Err(Error::Internal);
        }
        proof {
            lemma_principal_fits::<Vehicle>(vehicle@, record.model());
        }
        let kept = self.vehicles.insert(vehicle, &record);
        if on_off {
            Ok(StoreTelemetryResponse::On)
        } else {
            Ok(StoreTelemetryResponse::Off)
        }
    }
}

} // verus!
