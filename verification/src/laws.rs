//! What holds of the service whatever is asked of it. A `Call` is one
//! request that can change the state, with everything that decides its
//! outcome; `step` is the state after it. The laws say which properties of
//! the state every call keeps.

use vstd::prelude::*;
use crate::accumulate::{bill_all_rule, daily_rule, fold_all_rule, fold_vehicle_rule};
use crate::billing::{bills, create_invoice_rule, has_invoice};
use crate::calendar::{previous_month_spec, Date};
use crate::decimal::decimal_of_text;
use crate::error::Error;
use crate::fold::{
    adds_up, law_fold_keeps_entries_distinct, law_fold_keeps_sums, years_distinct,
};
use crate::principal::self_authenticating_id;
use crate::records::AgreementState;
use crate::rules::{
    add_admin_rule, begin_payment_rule, complete_payment_rule, create_agreement_rule,
    delete_admin_rule, delete_paid_invoices_rule, delete_pending_invoices_rule, delete_user_rule,
    empty_state, is_canister, lemma_with_member, link_vehicle_rule, numbered, register_user_rule,
    request_firmware_rule, sign_agreement_rule, store_telemetry_rule, turn_on_off_vehicle_rule,
    upload_firmware_rule, with_member, Checks, PaymentView, StateView,
};
use crate::wire::StoreTelemetryRequest;

verus! {

/// One request that can change the state.
pub enum Call {
    AddAdmin { caller: Seq<u8>, new_admin: Seq<u8> },
    DeleteAdmin { caller: Seq<u8>, admin: Seq<u8> },
    RegisterUser { caller: Seq<u8>, user: Seq<u8>, email: Option<Seq<char>> },
    DeleteUser { caller: Seq<u8>, user: Seq<u8> },
    RequestFirmware { caller: Seq<u8> },
    UploadFirmware {
        caller: Seq<u8>,
        customer: Seq<u8>,
        public_key: Seq<u8>,
        arch: Seq<char>,
        firmware: Seq<u8>,
    },
    TurnOnOffVehicle { caller: Seq<u8>, vehicle: Seq<u8>, on_off: bool },
    CreateAgreement { caller: Seq<u8>, name: Seq<char>, customer: Seq<u8>, gas_price: Seq<char> },
    SignAgreement { caller: Seq<u8>, id: u128 },
    LinkVehicle { caller: Seq<u8>, id: u128, vehicle: Seq<u8> },
    /// A signed sample, with what the checks of its signature found, what
    /// its payload holds and the date of the clock.
    StoreTelemetry {
        vehicle: Seq<u8>,
        checks: Checks,
        request: Option<StoreTelemetryRequest>,
        day: Option<Date>,
    },
    /// The payment of an invoice, with what the ledger answered.
    PayForInvoice { caller: Seq<u8>, id: u128, transferred: bool },
    DeletePendingInvoices { caller: Seq<u8>, ids: Seq<u128> },
    DeletePaidInvoices { caller: Seq<u8>, ids: Seq<u128> },
    /// The daily job, with the order in which it takes the vehicles and
    /// the date of the clock.
    Accumulate { caller: Seq<u8>, order: Seq<Seq<u8>>, today: Option<Date> },
}

/// `pay_for_invoice` as a whole: the first half, the answer of the ledger,
/// the second half.
pub open spec fn pay_for_invoice_rule(
    s: StateView,
    caller: Seq<u8>,
    id: u128,
    transferred: bool,
) -> Result<StateView, Error> {
    match begin_payment_rule(s, caller, id) {
        Err(e) => Err(e),
        Ok(PaymentView::Settled) => Ok(s),
        Ok(PaymentView::Transfer { from, to, amount }) => complete_payment_rule(s, id, transferred),
    }
}

/// `accumulate_telemetry_data` as a whole.
pub open spec fn accumulate_rule(
    s: StateView,
    caller: Seq<u8>,
    order: Seq<Seq<u8>>,
    today: Option<Date>,
) -> Result<StateView, Error> {
    if !is_canister(s, caller) {
        Err(Error::Unauthorized)
    } else if today is None {
        Err(Error::InvalidData)
    } else {
        daily_rule(s, order, today->0)
    }
}

/// What a call does: an error, or the state after it.
#[verifier::opaque]
pub open spec fn outcome(s: StateView, call: Call) -> Result<StateView, Error> {
    match call {
        Call::AddAdmin { caller, new_admin } => add_admin_rule(s, caller, new_admin),
        Call::DeleteAdmin { caller, admin } => delete_admin_rule(s, caller, admin),
        Call::RegisterUser { caller, user, email } => register_user_rule(s, caller, user, email),
        Call::DeleteUser { caller, user } => delete_user_rule(s, caller, user),
        Call::RequestFirmware { caller } => request_firmware_rule(s, caller),
        Call::UploadFirmware { caller, customer, public_key, arch, firmware } => upload_firmware_rule(
            s,
            caller,
            customer,
            self_authenticating_id(public_key),
            public_key,
            arch,
            firmware,
        ),
        Call::TurnOnOffVehicle { caller, vehicle, on_off } => turn_on_off_vehicle_rule(
            s,
            caller,
            vehicle,
            on_off,
        ),
        Call::CreateAgreement { caller, name, customer, gas_price } => match create_agreement_rule(
            s,
            caller,
            name,
            customer,
            gas_price,
            decimal_of_text(gas_price) is Some,
        ) {
            Ok((after, id)) => Ok(after),
            Err(e) => Err(e),
        },
        Call::SignAgreement { caller, id } => sign_agreement_rule(s, caller, id),
        Call::LinkVehicle { caller, id, vehicle } => link_vehicle_rule(s, caller, id, vehicle),
        Call::StoreTelemetry { vehicle, checks, request, day } => match store_telemetry_rule(
            s,
            vehicle,
            checks,
            request,
            day,
        ) {
            Ok((after, reply)) => Ok(after),
            Err(e) => Err(e),
        },
        Call::PayForInvoice { caller, id, transferred } => pay_for_invoice_rule(
            s,
            caller,
            id,
            transferred,
        ),
        Call::DeletePendingInvoices { caller, ids } => delete_pending_invoices_rule(s, caller, ids),
        Call::DeletePaidInvoices { caller, ids } => delete_paid_invoices_rule(s, caller, ids),
        Call::Accumulate { caller, order, today } => accumulate_rule(s, caller, order, today),
    }
}

/// The state after a call: on an error, the state before it.
pub open spec fn step(s: StateView, call: Call) -> StateView {
    match outcome(s, call) {
        Ok(after) => after,
        Err(e) => s,
    }
}

// ------------------------------------------------------ the properties

/// Every agreement on a user's list is there, and the user is its provider
/// or its customer.
pub open spec fn agreements_linked(s: StateView) -> bool {
    forall|u: Seq<u8>, i: int|
        s.users.contains_key(u) && 0 <= i < s.users[u].agreements.len() ==> {
            let a = #[trigger] s.users[u].agreements[i];
            s.agreements.contains_key(a) && (s.agreements[a].vh_provider == u
                || s.agreements[a].vh_customer == u)
        }
}

/// Every vehicle on a user's list is there, and the user is its customer or
/// its provider.
pub open spec fn vehicles_linked(s: StateView) -> bool {
    forall|u: Seq<u8>, i: int|
        s.users.contains_key(u) && 0 <= i < s.users[u].vehicles.len() ==> {
            let v = #[trigger] s.users[u].vehicles[i];
            s.vehicles.contains_key(v) && (s.vehicles[v].customer == u || s.vehicles[v].provider
                == Some(u))
        }
}

/// Every invoice on a vehicle's list is there, and is an invoice of that
/// vehicle.
pub open spec fn invoices_linked(s: StateView) -> bool {
    forall|v: Seq<u8>, i: int|
        s.vehicles.contains_key(v) && 0 <= i < s.vehicles[v].invoices.len() ==> {
            let n = #[trigger] s.vehicles[v].invoices[i];
            s.invoices.contains_key(n) && s.invoices[n].vehicle == v
        }
}

/// In every vehicle's record, every total is the sum of the totals below
/// it.
pub open spec fn totals_add_up(s: StateView) -> bool {
    forall|v: Seq<u8>| #[trigger]
        s.vehicles.contains_key(v) ==> adds_up(s.vehicles[v].accumulated_telemetry)
}

/// No two invoices are for the same vehicle and month.
pub open spec fn periods_unique(s: StateView) -> bool {
    forall|a: u128, b: u128|
        #![trigger s.invoices[a], s.invoices[b]]
        s.invoices.contains_key(a) && s.invoices.contains_key(b) && a != b ==> !bills(
            s.invoices[a],
            s.invoices[b].vehicle,
            s.invoices[b].year,
            s.invoices[b].month,
        )
}

/// Every vehicle is named by the identity of its public key.
pub open spec fn identities_derived(s: StateView) -> bool {
    forall|v: Seq<u8>| #[trigger]
        s.vehicles.contains_key(v) ==> v == self_authenticating_id(s.vehicles[v].public_key)
}

/// A vehicle has a provider exactly when it is under an agreement.
pub open spec fn providers_paired(s: StateView) -> bool {
    forall|v: Seq<u8>| #[trigger]
        s.vehicles.contains_key(v) ==> (s.vehicles[v].provider is Some
            <==> s.vehicles[v].agreement is Some)
}

/// The lists of a user, of an agreement and of a vehicle hold nothing
/// twice: they are sets.
pub open spec fn lists_are_sets(s: StateView) -> bool {
    &&& forall|u: Seq<u8>| #[trigger]
        s.users.contains_key(u) ==> s.users[u].vehicles.no_duplicates()
            && s.users[u].agreements.no_duplicates()
    &&& forall|a: u128| #[trigger]
        s.agreements.contains_key(a) ==> s.agreements[a].vehicles.no_duplicates()
    &&& forall|v: Seq<u8>| #[trigger]
        s.vehicles.contains_key(v) ==> s.vehicles[v].invoices.no_duplicates()
}

/// The totals of a vehicle hold one entry for each kind and year, in it one
/// for each month, and in that one for each day: they are maps.
pub open spec fn totals_are_maps(s: StateView) -> bool {
    forall|v: Seq<u8>| #[trigger]
        s.vehicles.contains_key(v) ==> years_distinct(s.vehicles[v].accumulated_telemetry)
}

/// All of the properties that every call keeps.
pub open spec fn consistent(s: StateView) -> bool {
    &&& numbered(s)
    &&& lists_are_sets(s)
    &&& totals_are_maps(s)
    &&& agreements_linked(s)
    &&& vehicles_linked(s)
    &&& invoices_linked(s)
    &&& totals_add_up(s)
    &&& periods_unique(s)
    &&& identities_derived(s)
    &&& providers_paired(s)
}

/// Whether a call records a vehicle that a user other than its new
/// customer has on its list: such a call takes the vehicle from that user
/// without telling it.
pub open spec fn takes_vehicle(s: StateView, call: Call) -> bool {
    match call {
        Call::UploadFirmware { caller, customer, public_key, arch, firmware } => exists|
            u: Seq<u8>,
        |
            s.users.contains_key(u) && u != customer && #[trigger] s.users[u].vehicles.contains(
                self_authenticating_id(public_key),
            ),
        _ => false,
    }
}

// ------------------------------------------------------------- the laws

/// A service that starts from nothing is consistent.
pub proof fn law_empty_is_consistent(canister: Seq<u8>, gateways: Set<Seq<u8>>)
    ensures
        consistent(empty_state(canister, gateways)),
{
}

/// Members of a list used as a set, after one was put in: the old ones and
/// the new one.
proof fn lemma_member_of<T>(s: Seq<T>, x: T, i: int)
    requires
        0 <= i < with_member(s, x).len(),
    ensures
        with_member(s, x)[i] == x || (0 <= i < s.len() && s[i] == with_member(s, x)[i]),
{
}

proof fn lemma_upload_keeps(s: StateView, call: Call)
    requires
        consistent(s),
        call is UploadFirmware,
        !takes_vehicle(s, call),
    ensures
        consistent(step(s, call)),
{
    reveal(outcome);
    let after = step(s, call);
    if outcome(s, call) is Ok {
        let customer = call->UploadFirmware_customer;
        let id = self_authenticating_id(call->UploadFirmware_public_key);
        let old_list = s.users[customer].vehicles;
        assert forall|u: Seq<u8>, i: int|
            after.users.contains_key(u) && 0 <= i < after.users[u].vehicles.len() implies {
            let v = #[trigger] after.users[u].vehicles[i];
            after.vehicles.contains_key(v) && (after.vehicles[v].customer == u
                || after.vehicles[v].provider == Some(u))
        } by {
            let v = after.users[u].vehicles[i];
            if u == customer {
                lemma_member_of(old_list, id, i);
                if v != id {
                    assert(s.users[u].vehicles[i] == v);
                }
            } else {
                assert(s.users[u].vehicles[i] == v);
                if v == id {
                    assert(s.users[u].vehicles.contains(id));
                }
            }
        }
        assert forall|u: Seq<u8>, i: int|
            after.users.contains_key(u) && 0 <= i < after.users[u].agreements.len() implies {
            let a = #[trigger] after.users[u].agreements[i];
            after.agreements.contains_key(a) && (after.agreements[a].vh_provider == u
                || after.agreements[a].vh_customer == u)
        } by {
            assert(s.users[u].agreements[i] == after.users[u].agreements[i]);
        }
        assert forall|v: Seq<u8>, i: int|
            after.vehicles.contains_key(v) && 0 <= i < after.vehicles[v].invoices.len() implies {
            let n = #[trigger] after.vehicles[v].invoices[i];
            after.invoices.contains_key(n) && after.invoices[n].vehicle == v
        } by {
            if v != id {
                assert(s.vehicles[v].invoices[i] == after.vehicles[v].invoices[i]);
            }
        }
        assert(totals_add_up(after)) by {
            assert forall|v: Seq<u8>| #[trigger] after.vehicles.contains_key(v) implies adds_up(
                after.vehicles[v].accumulated_telemetry,
            ) by {
                if v != id {
                    assert(s.vehicles.contains_key(v));
                }
            }
        }
    }
}

proof fn lemma_create_agreement_keeps(s: StateView, call: Call)
    requires
        consistent(s),
        call is CreateAgreement,
    ensures
        consistent(step(s, call)),
{
    reveal(outcome);
    let after = step(s, call);
    if outcome(s, call) is Ok {
        let caller = call->CreateAgreement_caller;
        let customer = call->CreateAgreement_customer;
        let id = (s.agreement_counter + 1) as u128;
        assert(!s.agreements.contains_key(id));
        lemma_with_member(s.users[caller].agreements, id);
        assert forall|u: Seq<u8>, i: int|
            after.users.contains_key(u) && 0 <= i < after.users[u].agreements.len() implies {
            let a = #[trigger] after.users[u].agreements[i];
            after.agreements.contains_key(a) && (after.agreements[a].vh_provider == u
                || after.agreements[a].vh_customer == u)
        } by {
            let a = after.users[u].agreements[i];
            if u == caller || u == customer {
                if a != id {
                    if u == customer && u == caller {
                        lemma_member_of(s.users[u].agreements, id, i);
                        assert(s.users[u].agreements[i] == a);
                    } else {
                        lemma_member_of(s.users[u].agreements, id, i);
                        assert(s.users[u].agreements[i] == a);
                    }
                }
            } else {
                assert(s.users[u].agreements[i] == a);
            }
        }
        assert forall|u: Seq<u8>, i: int|
            after.users.contains_key(u) && 0 <= i < after.users[u].vehicles.len() implies {
            let v = #[trigger] after.users[u].vehicles[i];
            after.vehicles.contains_key(v) && (after.vehicles[v].customer == u
                || after.vehicles[v].provider == Some(u))
        } by {
            assert(s.users[u].vehicles[i] == after.users[u].vehicles[i]);
        }
    }
}

proof fn lemma_link_vehicle_keeps(s: StateView, call: Call)
    requires
        consistent(s),
        call is LinkVehicle,
    ensures
        consistent(step(s, call)),
{
    reveal(outcome);
    let after = step(s, call);
    if outcome(s, call) is Ok {
        let id = call->LinkVehicle_id;
        let vehicle = call->LinkVehicle_vehicle;
        let provider = s.agreements[id].vh_provider;
        assert forall|u: Seq<u8>, i: int|
            after.users.contains_key(u) && 0 <= i < after.users[u].vehicles.len() implies {
            let v = #[trigger] after.users[u].vehicles[i];
            after.vehicles.contains_key(v) && (after.vehicles[v].customer == u
                || after.vehicles[v].provider == Some(u))
        } by {
            let v = after.users[u].vehicles[i];
            if u == provider {
                lemma_member_of(s.users[u].vehicles, vehicle, i);
                if v != vehicle {
                    assert(s.users[u].vehicles[i] == v);
                }
            } else {
                assert(s.users[u].vehicles[i] == v);
            }
            if v == vehicle && u != provider {
                assert(s.vehicles[v].provider is None);
            }
        }
        assert forall|u: Seq<u8>, i: int|
            after.users.contains_key(u) && 0 <= i < after.users[u].agreements.len() implies {
            let a = #[trigger] after.users[u].agreements[i];
            after.agreements.contains_key(a) && (after.agreements[a].vh_provider == u
                || after.agreements[a].vh_customer == u)
        } by {
            assert(s.users[u].agreements[i] == after.users[u].agreements[i]);
        }
        assert forall|v: Seq<u8>, i: int|
            after.vehicles.contains_key(v) && 0 <= i < after.vehicles[v].invoices.len() implies {
            let n = #[trigger] after.vehicles[v].invoices[i];
            after.invoices.contains_key(n) && after.invoices[n].vehicle == v
        } by {
            assert(s.vehicles[v].invoices[i] == after.vehicles[v].invoices[i]);
        }
        assert(totals_add_up(after)) by {
            assert forall|v: Seq<u8>| #[trigger] after.vehicles.contains_key(v) implies adds_up(
                after.vehicles[v].accumulated_telemetry,
            ) by {
                assert(s.vehicles.contains_key(v));
            }
        }
    }
}

/// A change of a vehicle's record that leaves its owners, its key, its
/// totals and its invoices alone keeps the state consistent.
proof fn lemma_vehicle_touched(s: StateView, after: StateView, vehicle: Seq<u8>)
    requires
        consistent(s),
        s.vehicles.contains_key(vehicle),
        after == (StateView { vehicles: after.vehicles, ..s }),
        after.vehicles == s.vehicles.insert(vehicle, after.vehicles[vehicle]),
        after.vehicles[vehicle].customer == s.vehicles[vehicle].customer,
        after.vehicles[vehicle].provider == s.vehicles[vehicle].provider,
        after.vehicles[vehicle].agreement == s.vehicles[vehicle].agreement,
        after.vehicles[vehicle].public_key == s.vehicles[vehicle].public_key,
        after.vehicles[vehicle].invoices == s.vehicles[vehicle].invoices,
        adds_up(after.vehicles[vehicle].accumulated_telemetry),
        years_distinct(after.vehicles[vehicle].accumulated_telemetry),
    ensures
        consistent(after),
{
    assert(lists_are_sets(after)) by {
        assert forall|v: Seq<u8>| #[trigger]
            after.vehicles.contains_key(v) implies after.vehicles[v].invoices.no_duplicates() by {
            assert(s.vehicles.contains_key(v));
        }
    }
    assert(totals_are_maps(after)) by {
        assert forall|v: Seq<u8>| #[trigger] after.vehicles.contains_key(v) implies years_distinct(
            after.vehicles[v].accumulated_telemetry,
        ) by {
            if v != vehicle {
                assert(s.vehicles.contains_key(v));
            }
        }
    }
    assert forall|u: Seq<u8>, i: int|
        after.users.contains_key(u) && 0 <= i < after.users[u].vehicles.len() implies {
        let v = #[trigger] after.users[u].vehicles[i];
        after.vehicles.contains_key(v) && (after.vehicles[v].customer == u
            || after.vehicles[v].provider == Some(u))
    } by {
        assert(s.users[u].vehicles[i] == after.users[u].vehicles[i]);
    }
    assert forall|v: Seq<u8>, i: int|
        after.vehicles.contains_key(v) && 0 <= i < after.vehicles[v].invoices.len() implies {
        let n = #[trigger] after.vehicles[v].invoices[i];
        after.invoices.contains_key(n) && after.invoices[n].vehicle == v
    } by {
        assert(s.vehicles[v].invoices[i] == after.vehicles[v].invoices[i]);
    }
    assert(totals_add_up(after)) by {
        assert forall|v: Seq<u8>| #[trigger] after.vehicles.contains_key(v) implies adds_up(
            after.vehicles[v].accumulated_telemetry,
        ) by {
            if v != vehicle {
                assert(s.vehicles.contains_key(v));
            }
        }
    }
    assert(identities_derived(after)) by {
        assert forall|v: Seq<u8>| #[trigger] after.vehicles.contains_key(v) implies v
            == self_authenticating_id(after.vehicles[v].public_key) by {
            assert(s.vehicles.contains_key(v));
        }
    }
    assert(providers_paired(after)) by {
        assert forall|v: Seq<u8>| #[trigger] after.vehicles.contains_key(v) implies (
        after.vehicles[v].provider is Some <==> after.vehicles[v].agreement is Some) by {
            assert(s.vehicles.contains_key(v));
        }
    }
}

/// The fold of one vehicle keeps the state consistent.
proof fn lemma_fold_vehicle_keeps(s: StateView, vehicle: Seq<u8>)
    requires
        consistent(s),
    ensures
        fold_vehicle_rule(s, vehicle) is Ok ==> consistent(fold_vehicle_rule(s, vehicle)->Ok_0),
{
    if fold_vehicle_rule(s, vehicle) is Ok {
        let after = fold_vehicle_rule(s, vehicle)->Ok_0;
        let v = s.vehicles[vehicle];
        assert(s.vehicles.contains_key(vehicle));
        law_fold_keeps_sums(v.accumulated_telemetry, v.telemetry);
        law_fold_keeps_entries_distinct(v.accumulated_telemetry, v.telemetry);
        lemma_vehicle_touched(s, after, vehicle);
    }
}

/// The fold of a list of vehicles keeps the state consistent.
proof fn lemma_fold_all_keeps(s: StateView, order: Seq<Seq<u8>>)
    requires
        consistent(s),
    ensures
        fold_all_rule(s, order) is Ok ==> consistent(fold_all_rule(s, order)->Ok_0),
    decreases order.len(),
{
    if order.len() > 0 {
        lemma_fold_vehicle_keeps(s, order[0]);
        if fold_vehicle_rule(s, order[0]) is Ok {
            lemma_fold_all_keeps(fold_vehicle_rule(s, order[0])->Ok_0, order.drop_first());
        }
    }
}

/// Writing the invoice of a vehicle for a month, unless there is one,
/// keeps the state consistent.
proof fn lemma_create_invoice_keeps(s: StateView, vehicle: Seq<u8>, year: i32, month: u8)
    requires
        consistent(s),
    ensures
        create_invoice_rule(s, vehicle, year, month) is Ok ==> consistent(
            create_invoice_rule(s, vehicle, year, month)->Ok_0,
        ),
{
    let r = create_invoice_rule(s, vehicle, year, month);
    if r is Ok && r->Ok_0 != s {
        let after = r->Ok_0;
        let id = (s.invoice_counter + 1) as u128;
        assert(!s.invoices.contains_key(id));
        assert(!has_invoice(s.invoices, vehicle, year, month));
        assert forall|u: Seq<u8>, i: int|
            after.users.contains_key(u) && 0 <= i < after.users[u].vehicles.len() implies {
            let v = #[trigger] after.users[u].vehicles[i];
            after.vehicles.contains_key(v) && (after.vehicles[v].customer == u
                || after.vehicles[v].provider == Some(u))
        } by {
            assert(s.users[u].vehicles[i] == after.users[u].vehicles[i]);
        }
        assert forall|v: Seq<u8>, i: int|
            after.vehicles.contains_key(v) && 0 <= i < after.vehicles[v].invoices.len() implies {
            let n = #[trigger] after.vehicles[v].invoices[i];
            after.invoices.contains_key(n) && after.invoices[n].vehicle == v
        } by {
            if v == vehicle {
                if i < s.vehicles[v].invoices.len() {
                    assert(s.vehicles[v].invoices[i] == after.vehicles[v].invoices[i]);
                }
            } else {
                assert(s.vehicles[v].invoices[i] == after.vehicles[v].invoices[i]);
            }
        }
        assert(totals_add_up(after)) by {
            assert forall|v: Seq<u8>| #[trigger] after.vehicles.contains_key(v) implies adds_up(
                after.vehicles[v].accumulated_telemetry,
            ) by {
                assert(s.vehicles.contains_key(v));
            }
        }
        assert(identities_derived(after)) by {
            assert forall|v: Seq<u8>| #[trigger] after.vehicles.contains_key(v) implies v
                == self_authenticating_id(after.vehicles[v].public_key) by {
                assert(s.vehicles.contains_key(v));
            }
        }
        assert(providers_paired(after)) by {
            assert forall|v: Seq<u8>| #[trigger] after.vehicles.contains_key(v) implies (
            after.vehicles[v].provider is Some <==> after.vehicles[v].agreement is Some) by {
                assert(s.vehicles.contains_key(v));
            }
        }
        assert(periods_unique(after)) by {
            assert forall|a: u128, b: u128|
                #![trigger after.invoices[a], after.invoices[b]]
                after.invoices.contains_key(a) && after.invoices.contains_key(b) && a
                    != b implies !bills(
                after.invoices[a],
                after.invoices[b].vehicle,
                after.invoices[b].year,
                after.invoices[b].month,
            ) by {
                if a == id {
                    assert(s.invoices.contains_key(b));
                    if bills(s.invoices[b], vehicle, year, month) {
                        assert(has_invoice(s.invoices, vehicle, year, month));
                    }
                } else if b == id {
                    assert(s.invoices.contains_key(a));
                    if bills(s.invoices[a], vehicle, year, month) {
                        assert(has_invoice(s.invoices, vehicle, year, month));
                    }
                } else {
                    assert(s.invoices.contains_key(a) && s.invoices.contains_key(b));
                }
            }
        }
    }
}

/// Billing a list of vehicles keeps the state consistent.
proof fn lemma_bill_all_keeps(s: StateView, order: Seq<Seq<u8>>, year: i32, month: u8)
    requires
        consistent(s),
    ensures
        bill_all_rule(s, order, year, month) is Ok ==> consistent(
            bill_all_rule(s, order, year, month)->Ok_0,
        ),
    decreases order.len(),
{
    if order.len() > 0 {
        lemma_create_invoice_keeps(s, order[0], year, month);
        if create_invoice_rule(s, order[0], year, month) is Ok {
            lemma_bill_all_keeps(
                create_invoice_rule(s, order[0], year, month)->Ok_0,
                order.drop_first(),
                year,
                month,
            );
        }
    }
}

proof fn lemma_accumulate_keeps(s: StateView, call: Call)
    requires
        consistent(s),
        call is Accumulate,
    ensures
        consistent(step(s, call)),
{
    reveal(outcome);
    let order = call->Accumulate_order;
    let today = call->Accumulate_today;
    if outcome(s, call) is Ok {
        lemma_fold_all_keeps(s, order);
        let folded = fold_all_rule(s, order)->Ok_0;
        if today->0.day == 1 {
            let (year, month) = previous_month_spec(today->0.year, today->0.month)->0;
            lemma_bill_all_keeps(folded, order, year, month);
        }
    }
}

proof fn lemma_store_telemetry_keeps(s: StateView, call: Call)
    requires
        consistent(s),
        call is StoreTelemetry,
    ensures
        consistent(step(s, call)),
{
    reveal(outcome);
    if outcome(s, call) is Ok {
        lemma_vehicle_touched(s, step(s, call), call->StoreTelemetry_vehicle);
    }
}

proof fn lemma_turn_keeps(s: StateView, call: Call)
    requires
        consistent(s),
        call is TurnOnOffVehicle,
    ensures
        consistent(step(s, call)),
{
    reveal(outcome);
    if outcome(s, call) is Ok {
        lemma_vehicle_touched(s, step(s, call), call->TurnOnOffVehicle_vehicle);
    }
}

proof fn lemma_users_keeps(s: StateView, call: Call)
    requires
        consistent(s),
        call is RegisterUser || call is DeleteUser,
    ensures
        consistent(step(s, call)),
{
    reveal(outcome);
    let after = step(s, call);
    if outcome(s, call) is Ok {
        assert forall|u: Seq<u8>, i: int|
            after.users.contains_key(u) && 0 <= i < after.users[u].agreements.len() implies {
            let a = #[trigger] after.users[u].agreements[i];
            after.agreements.contains_key(a) && (after.agreements[a].vh_provider == u
                || after.agreements[a].vh_customer == u)
        } by {
            assert(s.users[u].agreements[i] == after.users[u].agreements[i]);
        }
        assert forall|u: Seq<u8>, i: int|
            after.users.contains_key(u) && 0 <= i < after.users[u].vehicles.len() implies {
            let v = #[trigger] after.users[u].vehicles[i];
            after.vehicles.contains_key(v) && (after.vehicles[v].customer == u
                || after.vehicles[v].provider == Some(u))
        } by {
            assert(s.users[u].vehicles[i] == after.users[u].vehicles[i]);
        }
    }
}

proof fn lemma_sign_keeps(s: StateView, call: Call)
    requires
        consistent(s),
        call is SignAgreement,
    ensures
        consistent(step(s, call)),
{
    reveal(outcome);
    let after = step(s, call);
    if outcome(s, call) is Ok {
        assert forall|u: Seq<u8>, i: int|
            after.users.contains_key(u) && 0 <= i < after.users[u].agreements.len() implies {
            let a = #[trigger] after.users[u].agreements[i];
            after.agreements.contains_key(a) && (after.agreements[a].vh_provider == u
                || after.agreements[a].vh_customer == u)
        } by {
            assert(s.users[u].agreements[i] == after.users[u].agreements[i]);
        }
    }
}

proof fn lemma_pay_keeps(s: StateView, call: Call)
    requires
        consistent(s),
        call is PayForInvoice,
    ensures
        consistent(step(s, call)),
{
    reveal(outcome);
    let after = step(s, call);
    if outcome(s, call) is Ok && after != s {
        let id = call->PayForInvoice_id;
        assert forall|v: Seq<u8>, i: int|
            after.vehicles.contains_key(v) && 0 <= i < after.vehicles[v].invoices.len() implies {
            let n = #[trigger] after.vehicles[v].invoices[i];
            after.invoices.contains_key(n) && after.invoices[n].vehicle == v
        } by {
            assert(s.vehicles[v].invoices[i] == after.vehicles[v].invoices[i]);
        }
        assert(periods_unique(after)) by {
            assert forall|a: u128, b: u128|
                #![trigger after.invoices[a], after.invoices[b]]
                after.invoices.contains_key(a) && after.invoices.contains_key(b) && a
                    != b implies !bills(
                after.invoices[a],
                after.invoices[b].vehicle,
                after.invoices[b].year,
                after.invoices[b].month,
            ) by {
                assert(s.invoices.contains_key(a) && s.invoices.contains_key(b));
                assert(!bills(
                    s.invoices[a],
                    s.invoices[b].vehicle,
                    s.invoices[b].year,
                    s.invoices[b].month,
                ));
            }
        }
    }
}

/// Every call keeps the state consistent, but for an upload that takes a
/// vehicle from a user who has it on its list. So, after every call: every
/// agreement and every vehicle on a user's list is there and names the
/// user; every invoice on a vehicle's list is there and names the vehicle;
/// every total is the sum of the totals below it; no two invoices are for
/// the same vehicle and month; and every vehicle is named by the identity
/// of its public key.
pub proof fn law_calls_keep_consistency(s: StateView, call: Call)
    requires
        consistent(s),
        !takes_vehicle(s, call),
    ensures
        consistent(step(s, call)),
{
    reveal(outcome);
    match call {
        Call::AddAdmin { .. } => {},
        Call::DeleteAdmin { .. } => {},
        Call::RegisterUser { .. } => { lemma_users_keeps(s, call); },
        Call::DeleteUser { .. } => { lemma_users_keeps(s, call); },
        Call::RequestFirmware { .. } => {},
        Call::UploadFirmware { .. } => { lemma_upload_keeps(s, call); },
        Call::TurnOnOffVehicle { .. } => { lemma_turn_keeps(s, call); },
        Call::CreateAgreement { .. } => { lemma_create_agreement_keeps(s, call); },
        Call::SignAgreement { .. } => { lemma_sign_keeps(s, call); },
        Call::LinkVehicle { .. } => { lemma_link_vehicle_keeps(s, call); },
        Call::StoreTelemetry { .. } => { lemma_store_telemetry_keeps(s, call); },
        Call::PayForInvoice { .. } => { lemma_pay_keeps(s, call); },
        Call::DeletePendingInvoices { .. } => {},
        Call::DeletePaidInvoices { .. } => {},
        Call::Accumulate { .. } => { lemma_accumulate_keeps(s, call); },
    }
}

/// A signed agreement stays signed, whatever is called.
pub proof fn law_signed_stays_signed(s: StateView, call: Call, id: u128)
    requires
        numbered(s),
        s.agreements.contains_key(id),
        s.agreements[id].state == AgreementState::Signed,
    ensures
        step(s, call).agreements.contains_key(id),
        step(s, call).agreements[id].state == AgreementState::Signed,
{
    reveal(outcome);
    match call {
        Call::Accumulate { caller, order, today } => {
            if outcome(s, call) is Ok {
                lemma_fold_all_agreements(s, order);
                let folded = fold_all_rule(s, order)->Ok_0;
                if today->0.day == 1 {
                    let (year, month) = previous_month_spec(today->0.year, today->0.month)->0;
                    lemma_bill_all_agreements(folded, order, year, month);
                }
            }
        },
        _ => {},
    }
}

/// The fold leaves the agreements and the admins alone.
proof fn lemma_fold_all_agreements(s: StateView, order: Seq<Seq<u8>>)
    ensures
        fold_all_rule(s, order) is Ok ==> fold_all_rule(s, order)->Ok_0.agreements == s.agreements
            && fold_all_rule(s, order)->Ok_0.admins == s.admins,
    decreases order.len(),
{
    if order.len() > 0 && fold_vehicle_rule(s, order[0]) is Ok {
        lemma_fold_all_agreements(fold_vehicle_rule(s, order[0])->Ok_0, order.drop_first());
    }
}

/// Billing leaves the agreements and the admins alone.
proof fn lemma_bill_all_agreements(s: StateView, order: Seq<Seq<u8>>, year: i32, month: u8)
    ensures
        bill_all_rule(s, order, year, month) is Ok ==> bill_all_rule(
            s,
            order,
            year,
            month,
        )->Ok_0.agreements == s.agreements && bill_all_rule(s, order, year, month)->Ok_0.admins
            == s.admins,
    decreases order.len(),
{
    if order.len() > 0 && create_invoice_rule(s, order[0], year, month) is Ok {
        lemma_bill_all_agreements(
            create_invoice_rule(s, order[0], year, month)->Ok_0,
            order.drop_first(),
            year,
            month,
        );
    }
}

/// The daily job leaves the admins alone.
proof fn lemma_accumulate_admins(s: StateView, call: Call)
    requires
        call is Accumulate,
    ensures
        step(s, call).admins == s.admins,
{
    reveal(outcome);
    let order = call->Accumulate_order;
    let today = call->Accumulate_today;
    if outcome(s, call) is Ok {
        lemma_fold_all_agreements(s, order);
        let folded = fold_all_rule(s, order)->Ok_0;
        if today->0.day == 1 {
            let (year, month) = previous_month_spec(today->0.year, today->0.month)->0;
            lemma_bill_all_agreements(folded, order, year, month);
        }
    }
}

/// After an `add_admin` that went through there is an admin.
pub proof fn law_add_admin_adds(s: StateView, call: Call)
    requires
        call is AddAdmin,
        outcome(s, call) is Ok,
    ensures
        exists|a: Seq<u8>| step(s, call).admins.contains(a),
{
    reveal(outcome);
    let after = step(s, call);
    if s.admins =~= Set::empty() {
        assert(after.admins.contains(call->AddAdmin_caller));
    } else {
        assert(after.admins.contains(call->AddAdmin_new_admin));
    }
}

/// Once there is an admin there is one for good: no call takes the last
/// one out.
pub proof fn law_admins_never_run_out(s: StateView, call: Call, admin: Seq<u8>)
    requires
        s.admins.contains(admin),
    ensures
        exists|a: Seq<u8>| step(s, call).admins.contains(a),
{
    reveal(outcome);
    match call {
        Call::DeleteAdmin { caller, admin: gone } => {
            if outcome(s, call) is Ok {
                assert(step(s, call).admins.contains(caller));
            } else {
                assert(step(s, call).admins.contains(admin));
            }
        },
        Call::Accumulate { .. } => {
            lemma_accumulate_admins(s, call);
            assert(step(s, call).admins.contains(admin));
        },
        _ => {
            assert(step(s, call).admins.contains(admin));
        },
    }
}

/// While there is no admin, only an `add_admin` that goes through makes
/// one.
pub proof fn law_only_add_admin_adds(s: StateView, call: Call, admin: Seq<u8>)
    requires
        s.admins =~= Set::empty(),
        step(s, call).admins.contains(admin),
    ensures
        call is AddAdmin,
        outcome(s, call) is Ok,
{
    reveal(outcome);
    match call {
        Call::Accumulate { .. } => {
            lemma_accumulate_admins(s, call);
        },
        _ => {},
    }
}

/// The state after a run of calls, one after the other.
pub open spec fn run(s: StateView, calls: Seq<Call>) -> StateView
    decreases calls.len(),
{
    if calls.len() == 0 {
        s
    } else {
        step(run(s, calls.drop_last()), calls.last())
    }
}

/// That no call of a run takes a vehicle from a user who has it on its
/// list.
pub open spec fn takes_no_vehicle(s: StateView, calls: Seq<Call>) -> bool {
    forall|i: int| 0 <= i < calls.len() ==> !takes_vehicle(run(s, calls.take(i)), #[trigger] calls[i])
}

/// Whatever is called of a service that started from nothing, its state is
/// consistent, as long as no upload takes a vehicle from a user who has it
/// on its list.
pub proof fn law_service_stays_consistent(
    canister: Seq<u8>,
    gateways: Set<Seq<u8>>,
    calls: Seq<Call>,
)
    requires
        takes_no_vehicle(empty_state(canister, gateways), calls),
    ensures
        consistent(run(empty_state(canister, gateways), calls)),
    decreases calls.len(),
{
    let start = empty_state(canister, gateways);
    if calls.len() > 0 {
        let front = calls.drop_last();
        assert forall|i: int| 0 <= i < front.len() implies !takes_vehicle(
            run(start, front.take(i)),
            #[trigger] front[i],
        ) by {
            assert(front.take(i) =~= calls.take(i));
            assert(front[i] == calls[i]);
        }
        law_service_stays_consistent(canister, gateways, front);
        assert(calls.take(calls.len() - 1) =~= front);
        assert(calls.last() == calls[calls.len() - 1]);
        law_calls_keep_consistency(run(start, front), calls.last());
    }
}

/// That the call at place `i` of a run is an `add_admin` that went through.
pub open spec fn admin_added_at(s: StateView, calls: Seq<Call>, i: int) -> bool {
    &&& 0 <= i < calls.len()
    &&& calls[i] is AddAdmin
    &&& outcome(run(s, calls.take(i)), calls[i]) is Ok
}

/// A service that started from nothing has an admin exactly when an
/// `add_admin` has gone through.
pub proof fn law_admins_iff_one_was_added(
    canister: Seq<u8>,
    gateways: Set<Seq<u8>>,
    calls: Seq<Call>,
)
    ensures
        (exists|a: Seq<u8>| run(empty_state(canister, gateways), calls).admins.contains(a)) <==> (
        exists|i: int| admin_added_at(empty_state(canister, gateways), calls, i)),
    decreases calls.len(),
{
    let start = empty_state(canister, gateways);
    if calls.len() > 0 {
        let front = calls.drop_last();
        let last = calls.last();
        let before = run(start, front);
        let after = run(start, calls);
        law_admins_iff_one_was_added(canister, gateways, front);
        assert(calls.take(calls.len() - 1) =~= front);
        assert(last == calls[calls.len() - 1]);
        assert forall|i: int| admin_added_at(start, front, i) implies admin_added_at(
            start,
            calls,
            i,
        ) by {
            assert(front.take(i) =~= calls.take(i));
            assert(front[i] == calls[i]);
        }
        assert forall|i: int|
            admin_added_at(start, calls, i) && i < calls.len() - 1 implies admin_added_at(
            start,
            front,
            i,
        ) by {
            assert(front.take(i) =~= calls.take(i));
            assert(front[i] == calls[i]);
        }
        if exists|a: Seq<u8>| after.admins.contains(a) {
            let a = choose|a: Seq<u8>| after.admins.contains(a);
            if exists|b: Seq<u8>| before.admins.contains(b) {
                let i = choose|i: int| admin_added_at(start, front, i);
                assert(admin_added_at(start, calls, i));
            } else {
                assert(before.admins =~= Set::empty());
                law_only_add_admin_adds(before, last, a);
                assert(admin_added_at(start, calls, calls.len() - 1));
            }
        }
        if exists|i: int| admin_added_at(start, calls, i) {
            let i = choose|i: int| admin_added_at(start, calls, i);
            if i < calls.len() - 1 {
                assert(admin_added_at(start, front, i));
                let b = choose|b: Seq<u8>| before.admins.contains(b);
                law_admins_never_run_out(before, last, b);
            } else {
                law_add_admin_adds(before, last);
            }
        }
    } else {
        assert(run(start, calls).admins =~= Set::empty());
    }
}

/// Paying an invoice a second time changes nothing: once a payment went
/// through, another one, whatever the ledger answers, goes through and
/// leaves the state as it is.
pub proof fn law_paying_twice_is_paying_once(
    s: StateView,
    caller: Seq<u8>,
    id: u128,
    first: bool,
    second: bool,
)
    requires
        pay_for_invoice_rule(s, caller, id, first) is Ok,
    ensures
        pay_for_invoice_rule(pay_for_invoice_rule(s, caller, id, first)->Ok_0, caller, id, second)
            == pay_for_invoice_rule(s, caller, id, first),
{
}

/// Taking a number that is not in the queue of paid invoices out of it
/// changes nothing.
pub proof fn law_deleting_absent_is_nothing(s: StateView, caller: Seq<u8>, id: u128)
    requires
        !s.paid_invoices.contains(id),
        delete_paid_invoices_rule(s, caller, seq![id]) is Ok,
    ensures
        delete_paid_invoices_rule(s, caller, seq![id]) == Ok::<StateView, Error>(s),
{
    let after = delete_paid_invoices_rule(s, caller, seq![id])->Ok_0;
    assert(after.paid_invoices =~= s.paid_invoices) by {
        assert forall|x: u128| seq![id].to_set().contains(x) implies x == id by {
            let j = choose|j: int| 0 <= j < seq![id].len() && seq![id][j] == x;
        }
    }
}

} // verus!
