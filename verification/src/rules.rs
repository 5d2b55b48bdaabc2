//! What each operation of the service does, as mathematics: the state is a
//! handful of maps and sets, and every operation is a function from the
//! state before and its arguments to an error or the state after. The
//! executable operations are proved to do exactly this.

use vstd::prelude::*;
use crate::calendar::Date;
use crate::codec::Persist;
use crate::crypto::{is_public_key, is_signature, signed_by};
use crate::error::Error;
use crate::records::{
    Agreement, AgreementState, AgreementView, ConditionsView, InvoiceStatus, InvoiceView,
    User, UserView, Vehicle, VehicleView,
};
use crate::telemetry::Sample;

verus! {

/// The state of the service.
pub struct StateView {
    pub admins: Set<Seq<u8>>,
    pub users: Map<Seq<u8>, UserView>,
    pub agreements: Map<u128, AgreementView>,
    pub firmware_requests: Set<Seq<u8>>,
    pub vehicles: Map<Seq<u8>, VehicleView>,
    pub invoices: Map<u128, InvoiceView>,
    pub pending_invoices: Set<u128>,
    pub paid_invoices: Set<u128>,
    pub agreement_counter: u128,
    pub invoice_counter: u128,
    pub gateways: Set<Seq<u8>>,
    pub canister: Seq<u8>,
}

/// What the notifier is told of an invoice.
pub struct PendingView {
    pub id: u128,
    pub customer_email: Option<Seq<char>>,
    pub vehicle: Seq<u8>,
}

/// What a vehicle is told after it sent a sample.
#[derive(Clone, Copy, Debug, PartialEq, Eq, Structural)]
pub enum StoreTelemetryResponse {
    /// The vehicle may go on working.
    On,
    /// The vehicle is to be turned off.
    Off,
}

/// What paying an invoice asks of the ledger.
pub enum PaymentView {
    /// The invoice is paid already: nothing is to be transferred.
    Settled,
    /// The amount is to be transferred from the payer to the provider.
    Transfer { from: Seq<u8>, to: Seq<u8>, amount: u128 },
}

/// A list used as a set, with `x` in it.
pub open spec fn with_member<T>(s: Seq<T>, x: T) -> Seq<T> {
    if s.contains(x) {
        s
    } else {
        s.push(x)
    }
}

/// A list used as a set holds what was put in it, and putting it in again
/// changes nothing.
pub proof fn lemma_with_member<T>(s: Seq<T>, x: T)
    ensures
        with_member(s, x).contains(x),
        with_member(with_member(s, x), x) == with_member(s, x),
{
    if !s.contains(x) {
        assert(s.push(x)[s.len() as int] == x);
    }
}

/// Whether a record is short enough for a table to hold: a table stores the
/// length of a record in 32 bits.
pub open spec fn storable<T: Persist>(m: T::Model) -> bool {
    T::enc(m).len() <= u32::MAX
}

/// That an executable result and the state after an operation are what the
/// rule of an operation with a reply says: on an error nothing has changed.
pub open spec fn answers<T>(
    rule: Result<(StateView, T), Error>,
    before: StateView,
    after: StateView,
    r: Result<T, Error>,
) -> bool {
    match rule {
        Ok((s, reply)) => r == Ok::<T, Error>(reply) && after == s,
        Err(e) => r == Err::<T, Error>(e) && after == before,
    }
}

/// That an executable result and the state after an operation are what the
/// rule of the operation says: on an error nothing has changed.
pub open spec fn follows<T>(
    rule: Result<StateView, Error>,
    before: StateView,
    after: StateView,
    r: Result<T, Error>,
) -> bool {
    match rule {
        Ok(s) => r is Ok && after == s,
        Err(e) => r == Err::<T, Error>(e) && after == before,
    }
}

/// The state of a service that starts from nothing.
pub open spec fn empty_state(canister: Seq<u8>, gateways: Set<Seq<u8>>) -> StateView {
    StateView {
        admins: Set::empty(),
        users: Map::empty(),
        agreements: Map::empty(),
        firmware_requests: Set::empty(),
        vehicles: Map::empty(),
        invoices: Map::empty(),
        pending_invoices: Set::empty(),
        paid_invoices: Set::empty(),
        agreement_counter: 0,
        invoice_counter: 0,
        gateways,
        canister,
    }
}

/// That no agreement and no invoice has a number above its counter, so
/// that the next number is a new one.
pub open spec fn numbered(s: StateView) -> bool {
    &&& forall|id: u128| s.agreements.contains_key(id) ==> id <= s.agreement_counter
    &&& forall|id: u128| s.invoices.contains_key(id) ==> id <= s.invoice_counter
}

// ---------------------------------------------------------------- guards

/// The caller is an admin.
pub open spec fn is_admin(s: StateView, caller: Seq<u8>) -> bool {
    s.admins.contains(caller)
}

/// The caller is a registered user.
pub open spec fn is_user(s: StateView, caller: Seq<u8>) -> bool {
    s.users.contains_key(caller)
}

/// The caller is one of the gateways that the service was set up with.
pub open spec fn is_gateway(s: StateView, caller: Seq<u8>) -> bool {
    s.gateways.contains(caller)
}

/// The caller is the canister itself.
pub open spec fn is_canister(s: StateView, caller: Seq<u8>) -> bool {
    s.canister == caller
}

// ---------------------------------------------------------------- admins

/// `add_admin`: while there is no admin, the caller becomes the first one,
/// whoever it is; afterwards only an admin can add one.
pub open spec fn add_admin_rule(s: StateView, caller: Seq<u8>, new_admin: Seq<u8>) -> Result<
    StateView,
    Error,
> {
    if s.admins =~= Set::empty() {
        Ok(StateView { admins: s.admins.insert(caller), ..s })
    } else if !is_admin(s, caller) {
        Err(Error::Unauthorized)
    } else {
        Ok(StateView { admins: s.admins.insert(new_admin), ..s })
    }
}

/// `delete_admin`: an admin takes another admin out, never itself.
pub open spec fn delete_admin_rule(s: StateView, caller: Seq<u8>, admin: Seq<u8>) -> Result<
    StateView,
    Error,
> {
    if !is_admin(s, caller) {
        Err(Error::Unauthorized)
    } else if !s.admins.contains(admin) {
        Err(Error::NotFound)
    } else if admin == caller {
        Err(Error::InvalidSigner)
    } else {
        Ok(StateView { admins: s.admins.remove(admin), ..s })
    }
}

// ----------------------------------------------------------------- users

/// The record of a user that was just registered.
pub open spec fn new_user(email: Option<Seq<char>>) -> UserView {
    UserView { vehicles: Seq::empty(), agreements: Seq::empty(), email }
}

/// `register_user`: an admin registers a principal that is not yet a user.
pub open spec fn register_user_rule(
    s: StateView,
    caller: Seq<u8>,
    user: Seq<u8>,
    email: Option<Seq<char>>,
) -> Result<StateView, Error> {
    if !is_admin(s, caller) {
        Err(Error::Unauthorized)
    } else if s.users.contains_key(user) {
        Err(Error::AlreadyExists)
    } else if !storable::<User>(new_user(email)) {
        Err(Error::Internal)
    } else {
        Ok(StateView { users: s.users.insert(user, new_user(email)), ..s })
    }
}

/// `delete_user`: an admin takes a user out.
pub open spec fn delete_user_rule(s: StateView, caller: Seq<u8>, user: Seq<u8>) -> Result<
    StateView,
    Error,
> {
    if !is_admin(s, caller) {
        Err(Error::Unauthorized)
    } else if !s.users.contains_key(user) {
        Err(Error::NotFound)
    } else {
        Ok(StateView { users: s.users.remove(user), ..s })
    }
}

/// `get_user`: a user reads its own record.
pub open spec fn get_user_rule(s: StateView, caller: Seq<u8>) -> Result<UserView, Error> {
    if !is_user(s, caller) {
        Err(Error::Unauthorized)
    } else {
        Ok(s.users[caller])
    }
}

// ------------------------------------------------------------- firmware

/// `request_firmware`: a user asks for firmware, once at a time.
pub open spec fn request_firmware_rule(s: StateView, caller: Seq<u8>) -> Result<StateView, Error> {
    if !is_user(s, caller) {
        Err(Error::Unauthorized)
    } else if s.firmware_requests.contains(caller) {
        Err(Error::AlreadyExists)
    } else {
        Ok(StateView { firmware_requests: s.firmware_requests.insert(caller), ..s })
    }
}

/// `get_firmware_requests_by_user`: whether the caller has a request open.
pub open spec fn get_firmware_requests_by_user_rule(s: StateView, caller: Seq<u8>) -> Result<
    (),
    Error,
> {
    if !is_user(s, caller) {
        Err(Error::Unauthorized)
    } else if !s.firmware_requests.contains(caller) {
        Err(Error::NotFound)
    } else {
        Ok(())
    }
}

/// The record of a vehicle whose firmware was just uploaded.
pub open spec fn new_vehicle(
    customer: Seq<u8>,
    public_key: Seq<u8>,
    arch: Seq<char>,
    firmware: Seq<u8>,
) -> VehicleView {
    VehicleView {
        provider: None,
        customer,
        agreement: None,
        public_key,
        arch,
        firmware,
        on_off: true,
        telemetry: Seq::empty(),
        accumulated_telemetry: Seq::empty(),
        invoices: Seq::empty(),
    }
}

/// `upload_firmware`: a gateway hands in the firmware built for a customer.
/// The customer's request is closed, the vehicle is recorded anew under
/// `id`, the identity that its public key names, and the customer owns it.
pub open spec fn upload_firmware_rule(
    s: StateView,
    caller: Seq<u8>,
    customer: Seq<u8>,
    id: Seq<u8>,
    public_key: Seq<u8>,
    arch: Seq<char>,
    firmware: Seq<u8>,
) -> Result<StateView, Error> {
    let vehicle = new_vehicle(customer, public_key, arch, firmware);
    if !is_gateway(s, caller) {
        Err(Error::Unauthorized)
    } else if !s.users.contains_key(customer) {
        Err(Error::NotFound)
    } else {
        let owner = UserView {
            vehicles: with_member(s.users[customer].vehicles, id),
            ..s.users[customer]
        };
        if !storable::<Vehicle>(vehicle) || !storable::<User>(owner) {
            Err(Error::Internal)
        } else {
            Ok(
                StateView {
                    firmware_requests: s.firmware_requests.remove(customer),
                    vehicles: s.vehicles.insert(id, vehicle),
                    users: s.users.insert(customer, owner),
                    ..s
                },
            )
        }
    }
}

// -------------------------------------------------------------- vehicles

/// Whether the caller may see the vehicle: its customer always, its
/// provider once it has one.
pub open spec fn may_see(v: VehicleView, caller: Seq<u8>) -> bool {
    v.customer == caller || v.provider == Some(caller)
}

/// `get_vehicle`: the customer or the provider reads a vehicle's record.
pub open spec fn get_vehicle_rule(s: StateView, caller: Seq<u8>, vehicle: Seq<u8>) -> Result<
    VehicleView,
    Error,
> {
    if !is_user(s, caller) {
        Err(Error::Unauthorized)
    } else if !s.vehicles.contains_key(vehicle) {
        Err(Error::NotFound)
    } else if !may_see(s.vehicles[vehicle], caller) {
        Err(Error::InvalidSigner)
    } else {
        Ok(s.vehicles[vehicle])
    }
}

/// `turn_on_off_vehicle`: the provider of a vehicle switches it.
pub open spec fn turn_on_off_vehicle_rule(
    s: StateView,
    caller: Seq<u8>,
    vehicle: Seq<u8>,
    on_off: bool,
) -> Result<StateView, Error> {
    if !is_user(s, caller) {
        Err(Error::Unauthorized)
    } else if !s.vehicles.contains_key(vehicle) {
        Err(Error::NotFound)
    } else if s.vehicles[vehicle].provider != Some(caller) {
        Err(Error::InvalidSigner)
    } else if !storable::<Vehicle>(VehicleView { on_off, ..s.vehicles[vehicle] }) {
        Err(Error::Internal)
    } else {
        Ok(
            StateView {
                vehicles: s.vehicles.insert(vehicle, VehicleView { on_off, ..s.vehicles[vehicle] }),
                ..s
            },
        )
    }
}

/// `get_aggregated_data`: the totals of a vehicle.
pub open spec fn get_aggregated_data_rule(s: StateView, caller: Seq<u8>, vehicle: Seq<u8>) -> Result<
    Seq<crate::telemetry::YearView>,
    Error,
> {
    if !is_user(s, caller) {
        Err(Error::Unauthorized)
    } else if !s.vehicles.contains_key(vehicle) {
        Err(Error::NotFound)
    } else {
        Ok(s.vehicles[vehicle].accumulated_telemetry)
    }
}

// ------------------------------------------------------------ agreements

/// The record of an agreement that was just created.
pub open spec fn new_agreement(
    id: u128,
    name: Seq<char>,
    provider: Seq<u8>,
    customer: Seq<u8>,
    gas_price: Seq<char>,
) -> AgreementView {
    AgreementView {
        id,
        name,
        vh_provider: provider,
        vh_customer: customer,
        state: AgreementState::Unsigned,
        conditions: ConditionsView { gas_price },
        vehicles: Seq::empty(),
    }
}

/// The users after agreement `id` was put on the lists of its provider and
/// its customer.
pub open spec fn users_with_agreement(
    users: Map<Seq<u8>, UserView>,
    provider: Seq<u8>,
    customer: Seq<u8>,
    id: u128,
) -> Map<Seq<u8>, UserView> {
    let first = users.insert(
        provider,
        UserView { agreements: with_member(users[provider].agreements, id), ..users[provider] },
    );
    first.insert(
        customer,
        UserView { agreements: with_member(first[customer].agreements, id), ..first[customer] },
    )
}

/// `create_agreement`: a user, as provider, offers a customer an agreement
/// at a price; `priced` says whether the price is a decimal. Gives the
/// state after and the number of the agreement.
pub open spec fn create_agreement_rule(
    s: StateView,
    caller: Seq<u8>,
    name: Seq<char>,
    customer: Seq<u8>,
    gas_price: Seq<char>,
    priced: bool,
) -> Result<(StateView, u128), Error> {
    if !is_user(s, caller) {
        Err(Error::Unauthorized)
    } else if !priced {
        Err(Error::InvalidData)
    } else if !s.users.contains_key(customer) {
        Err(Error::NotFound)
    } else if s.agreement_counter == u128::MAX {
        Err(Error::Internal)
    } else {
        let id = (s.agreement_counter + 1) as u128;
        let agreement = new_agreement(id, name, caller, customer, gas_price);
        let users = users_with_agreement(s.users, caller, customer, id);
        if !storable::<Agreement>(agreement) || !storable::<User>(users[caller]) || !storable::<
            User,
        >(users[customer]) {
            Err(Error::Internal)
        } else {
            Ok(
                (
                    StateView {
                        agreement_counter: id,
                        agreements: s.agreements.insert(id, agreement),
                        users,
                        ..s
                    },
                    id,
                ),
            )
        }
    }
}

/// `sign_agreement`: the customer of an agreement signs it, once.
pub open spec fn sign_agreement_rule(s: StateView, caller: Seq<u8>, id: u128) -> Result<
    StateView,
    Error,
> {
    if !is_user(s, caller) {
        Err(Error::Unauthorized)
    } else if !s.agreements.contains_key(id) {
        Err(Error::NotFound)
    } else if s.agreements[id].vh_customer != caller {
        Err(Error::InvalidSigner)
    } else if s.agreements[id].state == AgreementState::Signed {
        Err(Error::AlreadyExists)
    } else if !storable::<Agreement>(
        AgreementView { state: AgreementState::Signed, ..s.agreements[id] },
    ) {
        Err(Error::Internal)
    } else {
        Ok(
            StateView {
                agreements: s.agreements.insert(
                    id,
                    AgreementView { state: AgreementState::Signed, ..s.agreements[id] },
                ),
                ..s
            },
        )
    }
}

/// `link_vehicle`: the customer puts one of its vehicles under an
/// agreement. The agreement lists the vehicle, the vehicle names the
/// agreement and its provider, and the provider lists the vehicle: all
/// three, or nothing.
pub open spec fn link_vehicle_rule(s: StateView, caller: Seq<u8>, id: u128, vehicle: Seq<u8>) -> Result<
    StateView,
    Error,
> {
    if !is_user(s, caller) {
        Err(Error::Unauthorized)
    } else if !s.agreements.contains_key(id) {
        Err(Error::NotFound)
    } else if s.agreements[id].vh_customer != caller {
        Err(Error::InvalidSigner)
    } else if s.agreements[id].vehicles.contains(vehicle) {
        Err(Error::AlreadyExists)
    } else if !s.vehicles.contains_key(vehicle) {
        Err(Error::NotFound)
    } else if s.vehicles[vehicle].customer != caller {
        Err(Error::InvalidSigner)
    } else if s.vehicles[vehicle].agreement is Some {
        Err(Error::AlreadyExists)
    } else if !s.users.contains_key(s.agreements[id].vh_provider) {
        Err(Error::NotFound)
    } else {
        let provider = s.agreements[id].vh_provider;
        let agreement = AgreementView {
            vehicles: s.agreements[id].vehicles.push(vehicle),
            ..s.agreements[id]
        };
        let linked = VehicleView {
            agreement: Some(id),
            provider: Some(provider),
            ..s.vehicles[vehicle]
        };
        let owner = UserView {
            vehicles: with_member(s.users[provider].vehicles, vehicle),
            ..s.users[provider]
        };
        if !storable::<Agreement>(agreement) || !storable::<Vehicle>(linked) || !storable::<User>(
            owner,
        ) {
            Err(Error::Internal)
        } else {
            Ok(
                StateView {
                    agreements: s.agreements.insert(id, agreement),
                    vehicles: s.vehicles.insert(vehicle, linked),
                    users: s.users.insert(provider, owner),
                    ..s
                },
            )
        }
    }
}

/// `get_vehicles_by_agreement`: the vehicles under an agreement.
pub open spec fn get_vehicles_by_agreement_rule(s: StateView, caller: Seq<u8>, id: u128) -> Result<
    Seq<Seq<u8>>,
    Error,
> {
    if !is_user(s, caller) {
        Err(Error::Unauthorized)
    } else if !s.agreements.contains_key(id) {
        Err(Error::NotFound)
    } else {
        Ok(s.agreements[id].vehicles)
    }
}

/// `get_user_agreements`: the agreements on the caller's list, in the order
/// of the list; all of them must be there.
pub open spec fn get_user_agreements_rule(s: StateView, caller: Seq<u8>) -> Result<
    Seq<AgreementView>,
    Error,
> {
    if !is_user(s, caller) {
        Err(Error::Unauthorized)
    } else if exists|i: int|
        0 <= i < s.users[caller].agreements.len() && !s.agreements.contains_key(
            #[trigger] s.users[caller].agreements[i],
        ) {
        Err(Error::NotFound)
    } else {
        Ok(
            Seq::new(
                s.users[caller].agreements.len(),
                |i: int| s.agreements[s.users[caller].agreements[i]],
            ),
        )
    }
}

// ------------------------------------------------------------- telemetry

/// The sample that a payload of the given value and kind becomes on the
/// given day.
pub open spec fn sample_on(request: crate::wire::StoreTelemetryRequest, day: Date) -> Sample {
    Sample {
        t_type: request.t_type,
        year: day.year,
        month: day.month,
        day: day.day,
        value: request.value,
    }
}

/// What the checks on a signed sample found.
pub struct Checks {
    /// The signature bytes are a signature.
    pub signature_formed: bool,
    /// The vehicle's stored key is a public key.
    pub key_formed: bool,
    /// The signature covers the payload under the key.
    pub signed: bool,
}

/// What the checks find for a payload and a signature that name a vehicle.
pub open spec fn checks_of(s: StateView, vehicle: Seq<u8>, payload: Seq<u8>, signature: Seq<u8>) -> Checks {
    Checks {
        signature_formed: is_signature(signature),
        key_formed: is_public_key(s.vehicles[vehicle].public_key),
        signed: signed_by(s.vehicles[vehicle].public_key, payload, signature),
    }
}

/// `store_telemetry`: a vehicle hands in a signed sample. The sample is put
/// behind the samples that wait for the fold, and the vehicle is told
/// whether it may go on. `checks` is what the signature checks found,
/// `request` what the payload decodes to and `day` the date of the
/// canister's clock.
pub open spec fn store_telemetry_rule(
    s: StateView,
    vehicle: Seq<u8>,
    checks: Checks,
    request: Option<crate::wire::StoreTelemetryRequest>,
    day: Option<Date>,
) -> Result<(StateView, StoreTelemetryResponse), Error> {
    if !checks.signature_formed {
        Err(Error::InvalidSignatureFormat)
    } else if !s.vehicles.contains_key(vehicle) {
        Err(Error::NotFound)
    } else if !checks.key_formed {
        Err(Error::Internal)
    } else if !checks.signed {
        Err(Error::InvalidSignature)
    } else if request is None {
        Err(Error::DecodeTelemetry)
    } else if day is None {
        Err(Error::InvalidData)
    } else {
        let v = s.vehicles[vehicle];
        let stored = VehicleView { telemetry: v.telemetry.push(sample_on(request->0, day->0)), ..v };
        if !storable::<Vehicle>(stored) {
            Err(Error::Internal)
        } else {
            Ok(
                (
                    StateView { vehicles: s.vehicles.insert(vehicle, stored), ..s },
                    if v.on_off {
                        StoreTelemetryResponse::On
                    } else {
                        StoreTelemetryResponse::Off
                    },
                ),
            )
        }
    }
}

// -------------------------------------------------------------- invoices

/// `get_invoice`: a user reads an invoice.
pub open spec fn get_invoice_rule(s: StateView, caller: Seq<u8>, id: u128) -> Result<
    InvoiceView,
    Error,
> {
    if !is_user(s, caller) {
        Err(Error::Unauthorized)
    } else if !s.invoices.contains_key(id) {
        Err(Error::NotFound)
    } else {
        Ok(s.invoices[id])
    }
}

/// The first half of `pay_for_invoice`: what is to be asked of the ledger.
/// The state does not change.
pub open spec fn begin_payment_rule(s: StateView, caller: Seq<u8>, id: u128) -> Result<
    PaymentView,
    Error,
> {
    if !is_user(s, caller) {
        Err(Error::Unauthorized)
    } else if !s.invoices.contains_key(id) {
        Err(Error::NotFound)
    } else if s.invoices[id].status == InvoiceStatus::Paid {
        Ok(PaymentView::Settled)
    } else if !s.vehicles.contains_key(s.invoices[id].vehicle) {
        Err(Error::NotFound)
    } else if s.vehicles[s.invoices[id].vehicle].provider is None {
        Err(Error::NotFound)
    } else {
        Ok(
            PaymentView::Transfer {
                from: caller,
                to: s.vehicles[s.invoices[id].vehicle].provider->0,
                amount: s.invoices[id].total_cost,
            },
        )
    }
}

/// The second half of `pay_for_invoice`, once the ledger has answered. The
/// invoice is read again: where it was paid in the meantime the answer of
/// the ledger does not matter; else a failed transfer leaves it unpaid, and
/// a transfer that went through marks it paid and queues it for the
/// notifier.
pub open spec fn complete_payment_rule(s: StateView, id: u128, transferred: bool) -> Result<
    StateView,
    Error,
> {
    if !s.invoices.contains_key(id) {
        Err(Error::NotFound)
    } else if s.invoices[id].status == InvoiceStatus::Paid {
        Ok(s)
    } else if !transferred {
        Err(Error::Internal)
    } else {
        Ok(
            StateView {
                invoices: s.invoices.insert(
                    id,
                    InvoiceView { status: InvoiceStatus::Paid, ..s.invoices[id] },
                ),
                paid_invoices: s.paid_invoices.insert(id),
                ..s
            },
        )
    }
}

/// Whether what the notifier is to be told of invoice `id` can be put
/// together: the invoice, its vehicle and the vehicle's customer are there.
pub open spec fn can_notify(s: StateView, id: u128) -> bool {
    &&& s.invoices.contains_key(id)
    &&& s.vehicles.contains_key(s.invoices[id].vehicle)
    &&& s.users.contains_key(s.vehicles[s.invoices[id].vehicle].customer)
}

/// What the notifier is told of invoice `id`.
pub open spec fn notice(s: StateView, id: u128) -> PendingView {
    PendingView {
        id,
        customer_email: s.users[s.vehicles[s.invoices[id].vehicle].customer].email,
        vehicle: s.invoices[id].vehicle,
    }
}

/// `delete_pending_invoices`: a gateway takes numbers out of the queue of
/// invoices to announce; numbers that are not in it are passed over.
pub open spec fn delete_pending_invoices_rule(s: StateView, caller: Seq<u8>, ids: Seq<u128>) -> Result<
    StateView,
    Error,
> {
    if !is_gateway(s, caller) {
        Err(Error::Unauthorized)
    } else {
        Ok(StateView { pending_invoices: s.pending_invoices.difference(ids.to_set()), ..s })
    }
}

/// `delete_paid_invoices`: the same for the queue of paid invoices.
pub open spec fn delete_paid_invoices_rule(s: StateView, caller: Seq<u8>, ids: Seq<u128>) -> Result<
    StateView,
    Error,
> {
    if !is_gateway(s, caller) {
        Err(Error::Unauthorized)
    } else {
        Ok(StateView { paid_invoices: s.paid_invoices.difference(ids.to_set()), ..s })
    }
}

} // verus!
