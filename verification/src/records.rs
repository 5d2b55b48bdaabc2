//! The records that the tables hold: users, agreements, vehicles and
//! invoices, each with the mathematical value it stands for.

use vstd::prelude::*;
use crate::codec::Persist;
use crate::principal::Principal;
use crate::telemetry::{AccumulatedTelemetryYearly, Sample, YearView};

verus! {

/// A registered user: the vehicles and agreements it has a part in.
#[derive(Debug)]
pub struct User {
    pub vehicles: Vec<Principal>,
    pub agreements: Vec<u128>,
    pub email: Option<String>,
}

/// What a user's record stands for.
pub struct UserView {
    pub vehicles: Seq<Seq<u8>>,
    pub agreements: Seq<u128>,
    pub email: Option<Seq<char>>,
}

/// Whether the customer has signed an agreement.
#[derive(Clone, Copy, Debug, PartialEq, Eq, Structural)]
pub enum AgreementState {
    Unsigned,
    Signed,
}

/// What an agreement fixes: the price of one unit of gas, as a decimal.
#[derive(Debug)]
pub struct AgreementConditions {
    pub gas_price: String,
}

/// What the conditions stand for.
pub struct ConditionsView {
    pub gas_price: Seq<char>,
}

/// A contract between a provider and a customer.
#[derive(Debug)]
pub struct Agreement {
    pub id: u128,
    pub name: String,
    pub vh_provider: Principal,
    pub vh_customer: Principal,
    pub state: AgreementState,
    pub conditions: AgreementConditions,
    pub vehicles: Vec<Principal>,
}

/// What an agreement's record stands for.
pub struct AgreementView {
    pub id: u128,
    pub name: Seq<char>,
    pub vh_provider: Seq<u8>,
    pub vh_customer: Seq<u8>,
    pub state: AgreementState,
    pub conditions: ConditionsView,
    pub vehicles: Seq<Seq<u8>>,
}

/// Whether an invoice was paid.
#[derive(Clone, Copy, Debug, PartialEq, Eq, Structural)]
pub enum InvoiceStatus {
    Unpaid,
    Paid,
}

/// The bill of one vehicle for one month.
#[derive(Debug)]
pub struct Invoice {
    pub id: u128,
    pub status: InvoiceStatus,
    pub vehicle: Principal,
    pub agreement: u128,
    pub year: i32,
    pub month: u8,
    pub total_cost: u128,
}

/// What an invoice's record stands for.
pub struct InvoiceView {
    pub id: u128,
    pub status: InvoiceStatus,
    pub vehicle: Seq<u8>,
    pub agreement: u128,
    pub year: i32,
    pub month: u8,
    pub total_cost: u128,
}

/// A vehicle: its key and firmware, whom it belongs to, what it measured.
#[derive(Debug)]
pub struct Vehicle {
    pub provider: Option<Principal>,
    pub customer: Principal,
    pub agreement: Option<u128>,
    pub public_key: Vec<u8>,
    pub arch: String,
    pub firmware: Vec<u8>,
    pub on_off: bool,
    pub telemetry: Vec<Sample>,
    pub accumulated_telemetry: Vec<AccumulatedTelemetryYearly>,
    pub invoices: Vec<u128>,
}

/// What a vehicle's record stands for.
pub struct VehicleView {
    pub provider: Option<Seq<u8>>,
    pub customer: Seq<u8>,
    pub agreement: Option<u128>,
    pub public_key: Seq<u8>,
    pub arch: Seq<char>,
    pub firmware: Seq<u8>,
    pub on_off: bool,
    pub telemetry: Seq<Sample>,
    pub accumulated_telemetry: Seq<YearView>,
    pub invoices: Seq<u128>,
}

/// An invoice as the notifier wants it: its number, the vehicle, and where
/// to write to the customer.
#[derive(Debug)]
pub struct PendingInvoice {
    pub id: u128,
    pub customer_email: Option<String>,
    pub vehicle: Principal,
}

impl Persist for User {
    type Model = UserView;

    open spec fn model(&self) -> UserView {
        UserView {
            vehicles: self.vehicles.model(),
            agreements: self.agreements.model(),
            email: self.email.model(),
        }
    }

    open spec fn valid(m: UserView) -> bool {
        &&& <Vec<Principal>>::valid(m.vehicles)
        &&& <Vec<u128>>::valid(m.agreements)
        &&& <Option<String>>::valid(m.email)
    }

    open spec fn enc(m: UserView) -> Seq<u8> {
        <Vec<Principal>>::enc(m.vehicles)
            + <Vec<u128>>::enc(m.agreements)
            + <Option<String>>::enc(m.email)
    }

    open spec fn dec(b0: Seq<u8>) -> Option<(UserView, Seq<u8>)> {
        match <Vec<Principal>>::dec(b0) {
            Some((vehicles, b1)) =>
            match <Vec<u128>>::dec(b1) {
                Some((agreements, b2)) =>
                match <Option<String>>::dec(b2) {
                    Some((email, b3)) =>
                    Some(
                        (
                            UserView {
                                vehicles,
                                agreements,
                                email,
                            },
                            b3,
                        ),
                    ),
                    None => None,
                },
                None => None,
            },
            None => None,
        }
    }

    proof fn lemma_round_trip(m: UserView, rest: Seq<u8>) {
        let t2 = <Option<String>>::enc(m.email) + rest;
        let t1 = <Vec<u128>>::enc(m.agreements) + t2;
        let t0 = <Vec<Principal>>::enc(m.vehicles) + t1;
        let pre0 = <Vec<Principal>>::enc(m.vehicles);
        let pre1 = pre0 + <Vec<u128>>::enc(m.agreements);
        let pre2 = pre1 + <Option<String>>::enc(m.email);
        assert(pre2 + rest =~= pre1 + t2);
        assert(pre1 + t2 =~= pre0 + t1);
        assert(Self::enc(m) + rest == t0);
        <Vec<Principal>>::lemma_round_trip(m.vehicles, t1);
        <Vec<u128>>::lemma_round_trip(m.agreements, t2);
        <Option<String>>::lemma_round_trip(m.email, rest);
    }

    fn write(&self, out: &mut Vec<u8>) {
        self.vehicles.write(out);
        self.agreements.write(out);
        self.email.write(out);
        assert(out@ =~= old(out)@ + Self::enc(self.model()));
    }

    fn read(data: &[u8], pos: usize) -> (r: Option<(User, usize)>) {
        let (vehicles, at1) = match <Vec<Principal>>::read(data, pos) {
            Some(pair) => pair,
            None => { return None; },
        };
        let (agreements, at2) = match <Vec<u128>>::read(data, at1) {
            Some(pair) => pair,
            None => { return None; },
        };
        let (email, at3) = match <Option<String>>::read(data, at2) {
            Some(pair) => pair,
            None => { return None; },
        };
        Some(
            (
                User {
                    vehicles,
                    agreements,
                    email,
                },
                at3,
            ),
        )
    }
}

impl Persist for AgreementState {
    type Model = AgreementState;

    open spec fn model(&self) -> AgreementState {
        *self
    }

    open spec fn valid(m: AgreementState) -> bool {
        true
    }

    open spec fn enc(m: AgreementState) -> Seq<u8> {
        match m {
            AgreementState::Unsigned => seq![0u8],
            AgreementState::Signed => seq![1u8],
        }
    }

    open spec fn dec(b: Seq<u8>) -> Option<(AgreementState, Seq<u8>)> {
        if b.len() >= 1 && b[0] == 0 {
            Some((AgreementState::Unsigned, b.skip(1)))
        } else if b.len() >= 1 && b[0] == 1 {
            Some((AgreementState::Signed, b.skip(1)))
        } else {
            None
        }
    }

    proof fn lemma_round_trip(m: AgreementState, rest: Seq<u8>) {
        assert((Self::enc(m) + rest).skip(1) =~= rest);
    }

    fn write(&self, out: &mut Vec<u8>) {
        let tag: u8 = match self {
            AgreementState::Unsigned => 0,
            AgreementState::Signed => 1,
        };
        out.push(tag);
        assert(out@ =~= old(out)@ + Self::enc(*self));
    }

    fn read(data: &[u8], pos: usize) -> (r: Option<(AgreementState, usize)>) {
        if pos >= data.len() {
            return None;
        }
        assert(data@.skip(pos as int).skip(1) =~= data@.skip(pos + 1));
        let tag = data[pos];
        if tag == 0 {
            Some((AgreementState::Unsigned, pos + 1))
        } else if tag == 1 {
            Some((AgreementState::Signed, pos + 1))
        } else {
            None
        }
    }
}

impl Persist for AgreementConditions {
    type Model = ConditionsView;

    open spec fn model(&self) -> ConditionsView {
        ConditionsView {
            gas_price: self.gas_price.model(),
        }
    }

    open spec fn valid(m: ConditionsView) -> bool {
        &&& <String>::valid(m.gas_price)
    }

    open spec fn enc(m: ConditionsView) -> Seq<u8> {
        <String>::enc(m.gas_price)
    }

    open spec fn dec(b0: Seq<u8>) -> Option<(ConditionsView, Seq<u8>)> {
        match <String>::dec(b0) {
            Some((gas_price, b1)) =>
            Some(
                (
                    ConditionsView {
                        gas_price,
                    },
                    b1,
                ),
            ),
            None => None,
        }
    }

    proof fn lemma_round_trip(m: ConditionsView, rest: Seq<u8>) {
        let t0 = <String>::enc(m.gas_price) + rest;
        let pre0 = <String>::enc(m.gas_price);
        assert(Self::enc(m) + rest == t0);
        <String>::lemma_round_trip(m.gas_price, rest);
    }

    fn write(&self, out: &mut Vec<u8>) {
        self.gas_price.write(out);
        assert(out@ =~= old(out)@ + Self::enc(self.model()));
    }

    fn read(data: &[u8], pos: usize) -> (r: Option<(AgreementConditions, usize)>) {
        let (gas_price, at1) = match <String>::read(data, pos) {
            Some(pair) => pair,
            None => { return None; },
        };
        Some(
            (
                AgreementConditions {
                    gas_price,
                },
                at1,
            ),
        )
    }
}

impl Persist for Agreement {
    type Model = AgreementView;

    open spec fn model(&self) -> AgreementView {
        AgreementView {
            id: self.id.model(),
            name: self.name.model(),
            vh_provider: self.vh_provider.model(),
            vh_customer: self.vh_customer.model(),
            state: self.state.model(),
            conditions: self.conditions.model(),
            vehicles: self.vehicles.model(),
        }
    }

    open spec fn valid(m: AgreementView) -> bool {
        &&& <u128>::valid(m.id)
        &&& <String>::valid(m.name)
        &&& <Principal>::valid(m.vh_provider)
        &&& <Principal>::valid(m.vh_customer)
        &&& <AgreementState>::valid(m.state)
        &&& <AgreementConditions>::valid(m.conditions)
        &&& <Vec<Principal>>::valid(m.vehicles)
    }

    open spec fn enc(m: AgreementView) -> Seq<u8> {
        <u128>::enc(m.id)
            + <String>::enc(m.name)
            + <Principal>::enc(m.vh_provider)
            + <Principal>::enc(m.vh_customer)
            + <AgreementState>::enc(m.state)
            + <AgreementConditions>::enc(m.conditions)
            + <Vec<Principal>>::enc(m.vehicles)
    }

    open spec fn dec(b0: Seq<u8>) -> Option<(AgreementView, Seq<u8>)> {
        match <u128>::dec(b0) {
            Some((id, b1)) =>
            match <String>::dec(b1) {
                Some((name, b2)) =>
                match <Principal>::dec(b2) {
                    Some((vh_provider, b3)) =>
                    match <Principal>::dec(b3) {
                        Some((vh_customer, b4)) =>
                        match <AgreementState>::dec(b4) {
                            Some((state, b5)) =>
                            match <AgreementConditions>::dec(b5) {
                                Some((conditions, b6)) =>
                                match <Vec<Principal>>::dec(b6) {
                                    Some((vehicles, b7)) =>
                                    Some(
                                        (
                                            AgreementView {
                                                id,
                                                name,
                                                vh_provider,
                                                vh_customer,
                                                state,
                                                conditions,
                                                vehicles,
                                            },
                                            b7,
                                        ),
                                    ),
                                    None => None,
                                },
                                None => None,
                            },
                            None => None,
                        },
                        None => None,
                    },
                    None => None,
                },
                None => None,
            },
            None => None,
        }
    }

    proof fn lemma_round_trip(m: AgreementView, rest: Seq<u8>) {
        let t6 = <Vec<Principal>>::enc(m.vehicles) + rest;
        let t5 = <AgreementConditions>::enc(m.conditions) + t6;
        let t4 = <AgreementState>::enc(m.state) + t5;
        let t3 = <Principal>::enc(m.vh_customer) + t4;
        let t2 = <Principal>::enc(m.vh_provider) + t3;
        let t1 = <String>::enc(m.name) + t2;
        let t0 = <u128>::enc(m.id) + t1;
        let pre0 = <u128>::enc(m.id);
        let pre1 = pre0 + <String>::enc(m.name);
        let pre2 = pre1 + <Principal>::enc(m.vh_provider);
        let pre3 = pre2 + <Principal>::enc(m.vh_customer);
        let pre4 = pre3 + <AgreementState>::enc(m.state);
        let pre5 = pre4 + <AgreementConditions>::enc(m.conditions);
        let pre6 = pre5 + <Vec<Principal>>::enc(m.vehicles);
        assert(pre6 + rest =~= pre5 + t6);
        assert(pre5 + t6 =~= pre4 + t5);
        assert(pre4 + t5 =~= pre3 + t4);
        assert(pre3 + t4 =~= pre2 + t3);
        assert(pre2 + t3 =~= pre1 + t2);
        assert(pre1 + t2 =~= pre0 + t1);
        assert(Self::enc(m) + rest == t0);
        <u128>::lemma_round_trip(m.id, t1);
        <String>::lemma_round_trip(m.name, t2);
        <Principal>::lemma_round_trip(m.vh_provider, t3);
        <Principal>::lemma_round_trip(m.vh_customer, t4);
        <AgreementState>::lemma_round_trip(m.state, t5);
        <AgreementConditions>::lemma_round_trip(m.conditions, t6);
        <Vec<Principal>>::lemma_round_trip(m.vehicles, rest);
    }

    fn write(&self, out: &mut Vec<u8>) {
        self.id.write(out);
        self.name.write(out);
        self.vh_provider.write(out);
        self.vh_customer.write(out);
        self.state.write(out);
        self.conditions.write(out);
        self.vehicles.write(out);
        assert(out@ =~= old(out)@ + Self::enc(self.model()));
    }

    fn read(data: &[u8], pos: usize) -> (r: Option<(Agreement, usize)>) {
        let (id, at1) = match <u128>::read(data, pos) {
            Some(pair) => pair,
            None => { return None; },
        };
        let (name, at2) = match <String>::read(data, at1) {
            Some(pair) => pair,
            None => { return None; },
        };
        let (vh_provider, at3) = match <Principal>::read(data, at2) {
            Some(pair) => pair,
            None => { return None; },
        };
        let (vh_customer, at4) = match <Principal>::read(data, at3) {
            Some(pair) => pair,
            None => { return None; },
        };
        let (state, at5) = match <AgreementState>::read(data, at4) {
            Some(pair) => pair,
            None => { return None; },
        };
        let (conditions, at6) = match <AgreementConditions>::read(data, at5) {
            Some(pair) => pair,
            None => { return None; },
        };
        let (vehicles, at7) = match <Vec<Principal>>::read(data, at6) {
            Some(pair) => pair,
            None => { return None; },
        };
        Some(
            (
                Agreement {
                    id,
                    name,
                    vh_provider,
                    vh_customer,
                    state,
                    conditions,
                    vehicles,
                },
                at7,
            ),
        )
    }
}

impl Persist for InvoiceStatus {
    type Model = InvoiceStatus;

    open spec fn model(&self) -> InvoiceStatus {
        *self
    }

    open spec fn valid(m: InvoiceStatus) -> bool {
        true
    }

    open spec fn enc(m: InvoiceStatus) -> Seq<u8> {
        match m {
            InvoiceStatus::Unpaid => seq![0u8],
            InvoiceStatus::Paid => seq![1u8],
        }
    }

    open spec fn dec(b: Seq<u8>) -> Option<(InvoiceStatus, Seq<u8>)> {
        if b.len() >= 1 && b[0] == 0 {
            Some((InvoiceStatus::Unpaid, b.skip(1)))
        } else if b.len() >= 1 && b[0] == 1 {
            Some((InvoiceStatus::Paid, b.skip(1)))
        } else {
            None
        }
    }

    proof fn lemma_round_trip(m: InvoiceStatus, rest: Seq<u8>) {
        assert((Self::enc(m) + rest).skip(1) =~= rest);
    }

    fn write(&self, out: &mut Vec<u8>) {
        let tag: u8 = match self {
            InvoiceStatus::Unpaid => 0,
            InvoiceStatus::Paid => 1,
        };
        out.push(tag);
        assert(out@ =~= old(out)@ + Self::enc(*self));
    }

    fn read(data: &[u8], pos: usize) -> (r: Option<(InvoiceStatus, usize)>) {
        if pos >= data.len() {
            return None;
        }
        assert(data@.skip(pos as int).skip(1) =~= data@.skip(pos + 1));
        let tag = data[pos];
        if tag == 0 {
            Some((InvoiceStatus::Unpaid, pos + 1))
        } else if tag == 1 {
            Some((InvoiceStatus::Paid, pos + 1))
        } else {
            None
        }
    }
}

impl Persist for Invoice {
    type Model = InvoiceView;

    open spec fn model(&self) -> InvoiceView {
        InvoiceView {
            id: self.id.model(),
            status: self.status.model(),
            vehicle: self.vehicle.model(),
            agreement: self.agreement.model(),
            year: self.year.model(),
            month: self.month.model(),
            total_cost: self.total_cost.model(),
        }
    }

    open spec fn valid(m: InvoiceView) -> bool {
        &&& <u128>::valid(m.id)
        &&& <InvoiceStatus>::valid(m.status)
        &&& <Principal>::valid(m.vehicle)
        &&& <u128>::valid(m.agreement)
        &&& <i32>::valid(m.year)
        &&& <u8>::valid(m.month)
        &&& <u128>::valid(m.total_cost)
    }

    open spec fn enc(m: InvoiceView) -> Seq<u8> {
        <u128>::enc(m.id)
            + <InvoiceStatus>::enc(m.status)
            + <Principal>::enc(m.vehicle)
            + <u128>::enc(m.agreement)
            + <i32>::enc(m.year)
            + <u8>::enc(m.month)
            + <u128>::enc(m.total_cost)
    }

    open spec fn dec(b0: Seq<u8>) -> Option<(InvoiceView, Seq<u8>)> {
        match <u128>::dec(b0) {
            Some((id, b1)) =>
            match <InvoiceStatus>::dec(b1) {
                Some((status, b2)) =>
                match <Principal>::dec(b2) {
                    Some((vehicle, b3)) =>
                    match <u128>::dec(b3) {
                        Some((agreement, b4)) =>
                        match <i32>::dec(b4) {
                            Some((year, b5)) =>
                            match <u8>::dec(b5) {
                                Some((month, b6)) =>
                                match <u128>::dec(b6) {
                                    Some((total_cost, b7)) =>
                                    Some(
                                        (
                                            InvoiceView {
                                                id,
                                                status,
                                                vehicle,
                                                agreement,
                                                year,
                                                month,
                                                total_cost,
                                            },
                                            b7,
                                        ),
                                    ),
                                    None => None,
                                },
                                None => None,
                            },
                            None => None,
                        },
                        None => None,
                    },
                    None => None,
                },
                None => None,
            },
            None => None,
        }
    }

    proof fn lemma_round_trip(m: InvoiceView, rest: Seq<u8>) {
        let t6 = <u128>::enc(m.total_cost) + rest;
        let t5 = <u8>::enc(m.month) + t6;
        let t4 = <i32>::enc(m.year) + t5;
        let t3 = <u128>::enc(m.agreement) + t4;
        let t2 = <Principal>::enc(m.vehicle) + t3;
        let t1 = <InvoiceStatus>::enc(m.status) + t2;
        let t0 = <u128>::enc(m.id) + t1;
        let pre0 = <u128>::enc(m.id);
        let pre1 = pre0 + <InvoiceStatus>::enc(m.status);
        let pre2 = pre1 + <Principal>::enc(m.vehicle);
        let pre3 = pre2 + <u128>::enc(m.agreement);
        let pre4 = pre3 + <i32>::enc(m.year);
        let pre5 = pre4 + <u8>::enc(m.month);
        let pre6 = pre5 + <u128>::enc(m.total_cost);
        assert(pre6 + rest =~= pre5 + t6);
        assert(pre5 + t6 =~= pre4 + t5);
        assert(pre4 + t5 =~= pre3 + t4);
        assert(pre3 + t4 =~= pre2 + t3);
        assert(pre2 + t3 =~= pre1 + t2);
        assert(pre1 + t2 =~= pre0 + t1);
        assert(Self::enc(m) + rest == t0);
        <u128>::lemma_round_trip(m.id, t1);
        <InvoiceStatus>::lemma_round_trip(m.status, t2);
        <Principal>::lemma_round_trip(m.vehicle, t3);
        <u128>::lemma_round_trip(m.agreement, t4);
        <i32>::lemma_round_trip(m.year, t5);
        <u8>::lemma_round_trip(m.month, t6);
        <u128>::lemma_round_trip(m.total_cost, rest);
    }

    fn write(&self, out: &mut Vec<u8>) {
        self.id.write(out);
        self.status.write(out);
        self.vehicle.write(out);
        self.agreement.write(out);
        self.year.write(out);
        self.month.write(out);
        self.total_cost.write(out);
        assert(out@ =~= old(out)@ + Self::enc(self.model()));
    }

    fn read(data: &[u8], pos: usize) -> (r: Option<(Invoice, usize)>) {
        let (id, at1) = match <u128>::read(data, pos) {
            Some(pair) => pair,
            None => { return None; },
        };
        let (status, at2) = match <InvoiceStatus>::read(data, at1) {
            Some(pair) => pair,
            None => { return None; },
        };
        let (vehicle, at3) = match <Principal>::read(data, at2) {
            Some(pair) => pair,
            None => { return None; },
        };
        let (agreement, at4) = match <u128>::read(data, at3) {
            Some(pair) => pair,
            None => { return None; },
        };
        let (year, at5) = match <i32>::read(data, at4) {
            Some(pair) => pair,
            None => { return None; },
        };
        let (month, at6) = match <u8>::read(data, at5) {
            Some(pair) => pair,
            None => { return None; },
        };
        let (total_cost, at7) = match <u128>::read(data, at6) {
            Some(pair) => pair,
            None => { return None; },
        };
        Some(
            (
                Invoice {
                    id,
                    status,
                    vehicle,
                    agreement,
                    year,
                    month,
                    total_cost,
                },
                at7,
            ),
        )
    }
}

impl Persist for Vehicle {
    type Model = VehicleView;

    open spec fn model(&self) -> VehicleView {
        VehicleView {
            provider: self.provider.model(),
            customer: self.customer.model(),
            agreement: self.agreement.model(),
            public_key: self.public_key.model(),
            arch: self.arch.model(),
            firmware: self.firmware.model(),
            on_off: self.on_off.model(),
            telemetry: self.telemetry.model(),
            accumulated_telemetry: self.accumulated_telemetry.model(),
            invoices: self.invoices.model(),
        }
    }

    open spec fn valid(m: VehicleView) -> bool {
        &&& <Option<Principal>>::valid(m.provider)
        &&& <Principal>::valid(m.customer)
        &&& <Option<u128>>::valid(m.agreement)
        &&& <Vec<u8>>::valid(m.public_key)
        &&& <String>::valid(m.arch)
        &&& <Vec<u8>>::valid(m.firmware)
        &&& <bool>::valid(m.on_off)
        &&& <Vec<Sample>>::valid(m.telemetry)
        &&& <Vec<AccumulatedTelemetryYearly>>::valid(m.accumulated_telemetry)
        &&& <Vec<u128>>::valid(m.invoices)
    }

    open spec fn enc(m: VehicleView) -> Seq<u8> {
        <Option<Principal>>::enc(m.provider)
            + <Principal>::enc(m.customer)
            + <Option<u128>>::enc(m.agreement)
            + <Vec<u8>>::enc(m.public_key)
            + <String>::enc(m.arch)
            + <Vec<u8>>::enc(m.firmware)
            + <bool>::enc(m.on_off)
            + <Vec<Sample>>::enc(m.telemetry)
            + <Vec<AccumulatedTelemetryYearly>>::enc(m.accumulated_telemetry)
            + <Vec<u128>>::enc(m.invoices)
    }

    open spec fn dec(b0: Seq<u8>) -> Option<(VehicleView, Seq<u8>)> {
        match <Option<Principal>>::dec(b0) {
            Some((provider, b1)) =>
            match <Principal>::dec(b1) {
                Some((customer, b2)) =>
                match <Option<u128>>::dec(b2) {
                    Some((agreement, b3)) =>
                    match <Vec<u8>>::dec(b3) {
                        Some((public_key, b4)) =>
                        match <String>::dec(b4) {
                            Some((arch, b5)) =>
                            match <Vec<u8>>::dec(b5) {
                                Some((firmware, b6)) =>
                                match <bool>::dec(b6) {
                                    Some((on_off, b7)) =>
                                    match <Vec<Sample>>::dec(b7) {
                                        Some((telemetry, b8)) =>
                                        match <Vec<AccumulatedTelemetryYearly>>::dec(b8) {
                                            Some((accumulated_telemetry, b9)) =>
                                            match <Vec<u128>>::dec(b9) {
                                                Some((invoices, b10)) =>
                                                Some(
                                                    (
                                                        VehicleView {
                                                            provider,
                                                            customer,
                                                            agreement,
                                                            public_key,
                                                            arch,
                                                            firmware,
                                                            on_off,
                                                            telemetry,
                                                            accumulated_telemetry,
                                                            invoices,
                                                        },
                                                        b10,
                                                    ),
                                                ),
                                                None => None,
                                            },
                                            None => None,
                                        },
                                        None => None,
                                    },
                                    None => None,
                                },
                                None => None,
                            },
                            None => None,
                        },
                        None => None,
                    },
                    None => None,
                },
                None => None,
            },
            None => None,
        }
    }

    #[verifier::rlimit(100)]
    #[verifier::spinoff_prover]
    proof fn lemma_round_trip(m: VehicleView, rest: Seq<u8>) {
        let t9 = <Vec<u128>>::enc(m.invoices) + rest;
        let t8 = <Vec<AccumulatedTelemetryYearly>>::enc(m.accumulated_telemetry) + t9;
        let t7 = <Vec<Sample>>::enc(m.telemetry) + t8;
        let t6 = <bool>::enc(m.on_off) + t7;
        let t5 = <Vec<u8>>::enc(m.firmware) + t6;
        let t4 = <String>::enc(m.arch) + t5;
        let t3 = <Vec<u8>>::enc(m.public_key) + t4;
        let t2 = <Option<u128>>::enc(m.agreement) + t3;
        let t1 = <Principal>::enc(m.customer) + t2;
        let t0 = <Option<Principal>>::enc(m.provider) + t1;
        let pre0 = <Option<Principal>>::enc(m.provider);
        let pre1 = pre0 + <Principal>::enc(m.customer);
        let pre2 = pre1 + <Option<u128>>::enc(m.agreement);
        let pre3 = pre2 + <Vec<u8>>::enc(m.public_key);
        let pre4 = pre3 + <String>::enc(m.arch);
        let pre5 = pre4 + <Vec<u8>>::enc(m.firmware);
        let pre6 = pre5 + <bool>::enc(m.on_off);
        let pre7 = pre6 + <Vec<Sample>>::enc(m.telemetry);
        let pre8 = pre7 + <Vec<AccumulatedTelemetryYearly>>::enc(m.accumulated_telemetry);
        let pre9 = pre8 + <Vec<u128>>::enc(m.invoices);
        assert(pre9 + rest =~= pre8 + t9);
        assert(pre8 + t9 =~= pre7 + t8);
        assert(pre7 + t8 =~= pre6 + t7);
        assert(pre6 + t7 =~= pre5 + t6);
        assert(pre5 + t6 =~= pre4 + t5);
        assert(pre4 + t5 =~= pre3 + t4);
        assert(pre3 + t4 =~= pre2 + t3);
        assert(pre2 + t3 =~= pre1 + t2);
        assert(pre1 + t2 =~= pre0 + t1);
        assert(Self::enc(m) + rest == t0);
        <Option<Principal>>::lemma_round_trip(m.provider, t1);
        <Principal>::lemma_round_trip(m.customer, t2);
        <Option<u128>>::lemma_round_trip(m.agreement, t3);
        <Vec<u8>>::lemma_round_trip(m.public_key, t4);
        <String>::lemma_round_trip(m.arch, t5);
        <Vec<u8>>::lemma_round_trip(m.firmware, t6);
        <bool>::lemma_round_trip(m.on_off, t7);
        <Vec<Sample>>::lemma_round_trip(m.telemetry, t8);
        <Vec<AccumulatedTelemetryYearly>>::lemma_round_trip(m.accumulated_telemetry, t9);
        <Vec<u128>>::lemma_round_trip(m.invoices, rest);
    }

    fn write(&self, out: &mut Vec<u8>) {
        self.provider.write(out);
        self.customer.write(out);
        self.agreement.write(out);
        self.public_key.write(out);
        self.arch.write(out);
        self.firmware.write(out);
        self.on_off.write(out);
        self.telemetry.write(out);
        self.accumulated_telemetry.write(out);
        self.invoices.write(out);
        assert(out@ =~= old(out)@ + Self::enc(self.model()));
    }

    fn read(data: &[u8], pos: usize) -> (r: Option<(Vehicle, usize)>) {
        let (provider, at1) = match <Option<Principal>>::read(data, pos) {
            Some(pair) => pair,
            None => { return None; },
        };
        let (customer, at2) = match <Principal>::read(data, at1) {
            Some(pair) => pair,
            None => { return None; },
        };
        let (agreement, at3) = match <Option<u128>>::read(data, at2) {
            Some(pair) => pair,
            None => { return None; },
        };
        let (public_key, at4) = match <Vec<u8>>::read(data, at3) {
            Some(pair) => pair,
            None => { return None; },
        };
        let (arch, at5) = match <String>::read(data, at4) {
            Some(pair) => pair,
            None => { return None; },
        };
        let (firmware, at6) = match <Vec<u8>>::read(data, at5) {
            Some(pair) => pair,
            None => { return None; },
        };
        let (on_off, at7) = match <bool>::read(data, at6) {
            Some(pair) => pair,
            None => { return None; },
        };
        let (telemetry, at8) = match <Vec<Sample>>::read(data, at7) {
            Some(pair) => pair,
            None => { return None; },
        };
        let (accumulated_telemetry, at9) = match <Vec<AccumulatedTelemetryYearly>>::read(data, at8) {
            Some(pair) => pair,
            None => { return None; },
        };
        let (invoices, at10) = match <Vec<u128>>::read(data, at9) {
            Some(pair) => pair,
            None => { return None; },
        };
        Some(
            (
                Vehicle {
                    provider,
                    customer,
                    agreement,
                    public_key,
                    arch,
                    firmware,
                    on_off,
                    telemetry,
                    accumulated_telemetry,
                    invoices,
                },
                at10,
            ),
        )
    }
}

} // verus!
