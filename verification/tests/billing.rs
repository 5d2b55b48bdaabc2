use vts::billing::compute_total;
use vts::calendar::Date;
use vts::decimal::Amount;
use vts::error::Error;
use vts::invoices::Payment;
use vts::principal::Principal;
use vts::records::InvoiceStatus;
use vts::rules::StoreTelemetryResponse;
use vts::state::State;
use vts::telemetry::{AccumulatedTelemetryMonthy, AccumulatedTelemetryYearly, DayTotal, TelemetryType};
use vts::wire::StoreTelemetryRequest;

// 2024-07-01 00:00:00 UTC and one hour later, in nanoseconds since the epoch.
const FIRST_OF_JULY: u64 = 1_719_792_000_000_000_000;
const FIRST_OF_JULY_LATER: u64 = 1_719_795_600_000_000_000;

fn gateway() -> Principal {
    Principal::from_slice(&[9, 9, 9]).unwrap()
}

fn canister() -> Principal {
    Principal::from_slice(&[0]).unwrap()
}

fn provider() -> Principal {
    Principal::from_slice(&[1, 2, 3, 4, 5]).unwrap()
}

fn customer() -> Principal {
    Principal::from_slice(&[6, 7, 8]).unwrap()
}

/// A service with a provider (who is admin), a customer with an email, and
/// a vehicle of the customer under an agreement at 1.35.
fn service() -> (State, Principal) {
    let mut state = State::fresh(canister(), vec![gateway()]);
    state.add_admin(&provider(), &provider()).unwrap();
    state.register_user(&provider(), &provider(), None).unwrap();
    state.register_user(&provider(), &customer(), Some("c@staex.io".to_string())).unwrap();
    let key = vec![10u8, 20, 30];
    let vehicle = Principal::self_authenticating(&key);
    state.upload_firmware(&gateway(), &customer(), key, "amd64".to_string(), vec![]).unwrap();
    let id = state
        .create_agreement(&provider(), "gas".to_string(), &customer(), "1.35".to_string())
        .unwrap();
    state.sign_agreement(&customer(), id).unwrap();
    state.link_vehicle(&customer(), id, &vehicle).unwrap();
    (state, vehicle)
}

fn record(state: &mut State, vehicle: &Principal, year: i32, month: u8, day: u8, value: u128) {
    let request = StoreTelemetryRequest { value, t_type: TelemetryType::Gas };
    let reply = state.record_telemetry(
        vehicle,
        true,
        true,
        true,
        Some(request),
        Some(Date { year, month, day }),
    );
    assert_eq!(reply, Ok(StoreTelemetryResponse::On));
}

fn price(digits: u32, scale: u32) -> Amount {
    Amount { lo: digits, mid: 0, hi: 0, negative: false, scale }
}

fn year_total(year: i32, value: u128) -> AccumulatedTelemetryYearly {
    AccumulatedTelemetryYearly {
        t_type: TelemetryType::Gas,
        year,
        value,
        monthly: vec![AccumulatedTelemetryMonthy {
            month: 1,
            value,
            daily: vec![DayTotal { day: 1, value }],
        }],
    }
}

#[test]
fn billing_scenario() {
    let (mut state, vehicle) = service();
    record(&mut state, &vehicle, 2024, 6, 15, 100);
    assert_eq!(state.accumulate_telemetry_data(&canister(), FIRST_OF_JULY), Ok(()));

    // One invoice for June, at 100 times 1.35, waits to be announced.
    let invoice = state.get_invoice(&customer(), 1).unwrap();
    assert_eq!(invoice.id, 1);
    assert_eq!(invoice.status, InvoiceStatus::Unpaid);
    assert!(invoice.vehicle.equals(&vehicle));
    assert_eq!(invoice.agreement, 1);
    assert_eq!((invoice.year, invoice.month), (2024, 6));
    assert_eq!(invoice.total_cost, 135);
    assert_eq!(state.get_vehicle(&customer(), &vehicle).unwrap().invoices, vec![1]);
    let pending = state.get_pending_invoices(&gateway()).unwrap();
    assert_eq!(pending.len(), 1);
    assert_eq!(pending[0].id, 1);
    assert_eq!(pending[0].customer_email, Some("c@staex.io".to_string()));
    assert!(pending[0].vehicle.equals(&vehicle));

    // Running the job again on the same day writes no second invoice.
    assert_eq!(state.accumulate_telemetry_data(&canister(), FIRST_OF_JULY_LATER), Ok(()));
    assert_eq!(state.get_invoice(&customer(), 2).unwrap_err(), Error::NotFound);
    assert_eq!(state.get_pending_invoices(&gateway()).unwrap().len(), 1);
    assert_eq!(state.get_vehicle(&customer(), &vehicle).unwrap().invoices, vec![1]);
    assert!(state.has_invoice_for(&vehicle, 2024, 6));
    assert!(!state.has_invoice_for(&vehicle, 2024, 7));
}

#[test]
fn pay_scenario() {
    let (mut state, vehicle) = service();
    record(&mut state, &vehicle, 2024, 6, 15, 100);
    state.accumulate_telemetry_data(&canister(), FIRST_OF_JULY).unwrap();

    match state.begin_payment(&customer(), 1).unwrap() {
        Payment::Transfer { from, to, amount } => {
            assert!(from.equals(&customer()));
            assert!(to.equals(&provider()));
            assert_eq!(amount, 135);
        }
        Payment::Settled => panic!("the invoice is not paid yet"),
    }
    // A transfer that failed leaves the invoice unpaid.
    assert_eq!(state.complete_payment(1, false), Err(Error::Internal));
    assert_eq!(state.get_invoice(&customer(), 1).unwrap().status, InvoiceStatus::Unpaid);
    assert!(state.get_paid_invoices(&gateway()).unwrap().is_empty());

    assert_eq!(state.complete_payment(1, true), Ok(()));
    assert_eq!(state.get_invoice(&customer(), 1).unwrap().status, InvoiceStatus::Paid);
    let paid = state.get_paid_invoices(&gateway()).unwrap();
    assert_eq!(paid.len(), 1);
    assert_eq!(paid[0].id, 1);
    // Paying does not take the invoice out of the other queue.
    assert_eq!(state.get_pending_invoices(&gateway()).unwrap().len(), 1);

    // Paying again goes through and changes nothing.
    assert!(matches!(state.begin_payment(&customer(), 1), Ok(Payment::Settled)));
    assert_eq!(state.complete_payment(1, true), Ok(()));
    assert_eq!(state.complete_payment(1, false), Ok(()));
    assert_eq!(state.get_invoice(&customer(), 1).unwrap().status, InvoiceStatus::Paid);
    assert_eq!(state.get_paid_invoices(&gateway()).unwrap().len(), 1);

    assert_eq!(state.begin_payment(&customer(), 9).unwrap_err(), Error::NotFound);
    assert_eq!(state.begin_payment(&gateway(), 1).unwrap_err(), Error::Unauthorized);
    assert_eq!(state.complete_payment(9, true), Err(Error::NotFound));
}

#[test]
fn queues_are_drained_by_number() {
    let (mut state, vehicle) = service();
    record(&mut state, &vehicle, 2024, 6, 15, 100);
    state.accumulate_telemetry_data(&canister(), FIRST_OF_JULY).unwrap();
    state.complete_payment(1, true).unwrap();

    assert_eq!(state.delete_paid_invoices(&customer(), &vec![1]), Err(Error::Unauthorized));
    assert_eq!(state.get_paid_invoices(&customer()).unwrap_err(), Error::Unauthorized);
    // A number that is not in the queue is passed over.
    assert_eq!(state.delete_paid_invoices(&gateway(), &vec![77]), Ok(()));
    assert_eq!(state.get_paid_invoices(&gateway()).unwrap().len(), 1);
    assert_eq!(state.delete_paid_invoices(&gateway(), &vec![77, 1, 1]), Ok(()));
    assert!(state.get_paid_invoices(&gateway()).unwrap().is_empty());
    assert_eq!(state.get_pending_invoices(&gateway()).unwrap().len(), 1);
    assert_eq!(state.delete_pending_invoices(&gateway(), &vec![1]), Ok(()));
    assert!(state.get_pending_invoices(&gateway()).unwrap().is_empty());
    // The invoice itself stays.
    assert_eq!(state.get_invoice(&provider(), 1).unwrap().status, InvoiceStatus::Paid);
}

#[test]
fn billing_is_all_or_nothing() {
    let (mut state, vehicle) = service();
    record(&mut state, &vehicle, 2024, 6, 15, 100);
    // A second vehicle, under no agreement, cannot be billed.
    let key = vec![99u8];
    let loose = Principal::self_authenticating(&key);
    state.upload_firmware(&gateway(), &customer(), key, "amd64".to_string(), vec![]).unwrap();
    record(&mut state, &loose, 2024, 6, 1, 4);

    assert_eq!(
        state.accumulate_on(&canister(), Date { year: 2024, month: 7, day: 1 }),
        Err(Error::NotFound)
    );
    // Nothing was folded and nothing billed.
    assert_eq!(state.get_vehicle(&customer(), &vehicle).unwrap().telemetry.len(), 1);
    assert!(state.get_aggregated_data(&customer(), &vehicle).unwrap().is_empty());
    assert_eq!(state.get_invoice(&customer(), 1).unwrap_err(), Error::NotFound);

    // On another day of the month the fold goes through for both.
    assert_eq!(state.accumulate_on(&canister(), Date { year: 2024, month: 7, day: 2 }), Ok(()));
    assert_eq!(state.get_aggregated_data(&customer(), &vehicle).unwrap()[0].value, 100);
    assert_eq!(state.get_aggregated_data(&customer(), &loose).unwrap()[0].value, 4);
    assert_eq!(state.get_invoice(&customer(), 1).unwrap_err(), Error::NotFound);
}

#[test]
fn january_bills_december() {
    let (mut state, vehicle) = service();
    record(&mut state, &vehicle, 2023, 12, 31, 10);
    assert_eq!(state.accumulate_on(&canister(), Date { year: 2024, month: 1, day: 1 }), Ok(()));
    let invoice = state.get_invoice(&customer(), 1).unwrap();
    assert_eq!((invoice.year, invoice.month), (2023, 12));
    // 10 times 1.35 is 13.5, cut down to 13.
    assert_eq!(invoice.total_cost, 13);
}

#[test]
fn invoices_are_numbered_in_the_order_of_the_vehicles() {
    let (mut state, vehicle) = service();
    let key = vec![99u8];
    let second = Principal::self_authenticating(&key);
    state.upload_firmware(&gateway(), &customer(), key, "amd64".to_string(), vec![]).unwrap();
    let id = state
        .create_agreement(&provider(), "more".to_string(), &customer(), "2".to_string())
        .unwrap();
    state.link_vehicle(&customer(), id, &second).unwrap();
    record(&mut state, &vehicle, 2024, 6, 15, 100);
    record(&mut state, &second, 2024, 6, 15, 7);
    state.accumulate_on(&canister(), Date { year: 2024, month: 7, day: 1 }).unwrap();

    let first = state.get_invoice(&customer(), 1).unwrap();
    let other = state.get_invoice(&customer(), 2).unwrap();
    assert_eq!(state.get_invoice(&customer(), 3).unwrap_err(), Error::NotFound);
    assert!(!first.vehicle.equals(&other.vehicle));
    for invoice in [&first, &other] {
        if invoice.vehicle.equals(&vehicle) {
            assert_eq!(invoice.total_cost, 135);
            assert_eq!(invoice.agreement, 1);
        } else {
            assert!(invoice.vehicle.equals(&second));
            assert_eq!(invoice.total_cost, 14);
            assert_eq!(invoice.agreement, 2);
        }
    }
    let pending = state.get_pending_invoices(&gateway()).unwrap();
    assert_eq!(pending.iter().map(|p| p.id).collect::<Vec<u128>>(), vec![1, 2]);

    // A single invoice can be written by hand, once.
    assert_eq!(state.create_invoice(&vehicle, 2024, 7), Ok(()));
    assert_eq!(state.create_invoice(&vehicle, 2024, 7), Ok(()));
    assert_eq!(state.get_invoice(&customer(), 3).unwrap().month, 7);
    assert_eq!(state.get_invoice(&customer(), 4).unwrap_err(), Error::NotFound);
    assert_eq!(state.create_invoice(&Principal::anonymous(), 2024, 7), Err(Error::NotFound));
}

#[test]
fn many_invoices_come_out_in_order() {
    let (mut state, vehicle) = service();
    record(&mut state, &vehicle, 2024, 1, 1, 1);
    state.accumulate_on(&canister(), Date { year: 2024, month: 1, day: 2 }).unwrap();
    // More than 256 invoices, so that their keys differ in more than the
    // last byte.
    for month in 0..300u32 {
        let year = 2000 + (month / 12) as i32;
        state.create_invoice(&vehicle, year, (month % 12 + 1) as u8).unwrap();
    }
    let pending = state.get_pending_invoices(&gateway()).unwrap();
    let ids: Vec<u128> = pending.iter().map(|p| p.id).collect();
    assert_eq!(ids, (1..=300).collect::<Vec<u128>>());
    assert_eq!(state.get_vehicle(&customer(), &vehicle).unwrap().invoices.len(), 300);
}

#[test]
fn cost_is_summed_over_the_years() {
    // 100 at 1.35
    assert_eq!(compute_total(&vec![year_total(2024, 100)], price(135, 2)), Some(135));
    // (3 + 4) at 0.5 is 3.5, cut down to 3
    assert_eq!(
        compute_total(&vec![year_total(2023, 3), year_total(2024, 4)], price(5, 1)),
        Some(3)
    );
    assert_eq!(compute_total(&vec![], price(135, 2)), Some(0));
    // A usage of more than 96 bits is no decimal.
    assert_eq!(compute_total(&vec![year_total(2024, 1 << 96)], price(1, 0)), None);
    assert_eq!(compute_total(&vec![year_total(2024, (1 << 96) - 1)], price(1, 0)), Some((1 << 96) - 1));
    // A product of more than 96 bits cannot be held.
    assert_eq!(compute_total(&vec![year_total(2024, (1 << 96) - 1)], price(2, 0)), None);
    // A cost below zero is no cost.
    let below = Amount { lo: 1, mid: 0, hi: 0, negative: true, scale: 0 };
    assert_eq!(compute_total(&vec![year_total(2024, 5)], below), None);
}

#[test]
fn state_survives_a_restart() {
    let (mut state, vehicle) = service();
    record(&mut state, &vehicle, 2024, 6, 15, 100);
    state.accumulate_telemetry_data(&canister(), FIRST_OF_JULY).unwrap();
    record(&mut state, &vehicle, 2024, 7, 1, 5);
    state.request_firmware(&customer()).unwrap();
    state.complete_payment(1, true).unwrap();

    let mut state = state.reopen().unwrap();

    assert!(state.is_admin(&provider()));
    assert!(state.is_gateway(&gateway()));
    assert!(state.is_canister(&canister()));
    assert_eq!(state.get_user(&customer()).unwrap().email, Some("c@staex.io".to_string()));
    assert_eq!(state.get_user(&provider()).unwrap().agreements, vec![1]);
    assert_eq!(state.get_firmware_requests_by_user(&customer()), Ok(()));
    let record = state.get_vehicle(&customer(), &vehicle).unwrap();
    assert_eq!(record.telemetry.len(), 1);
    assert_eq!(record.accumulated_telemetry[0].value, 100);
    assert_eq!(record.invoices, vec![1]);
    assert!(record.provider.unwrap() == provider());
    let invoice = state.get_invoice(&customer(), 1).unwrap();
    assert_eq!(invoice.status, InvoiceStatus::Paid);
    assert_eq!(invoice.total_cost, 135);
    assert_eq!(state.get_pending_invoices(&gateway()).unwrap().len(), 1);
    assert_eq!(state.get_paid_invoices(&gateway()).unwrap().len(), 1);

    // The counters go on from the largest numbers in the tables.
    assert_eq!(
        state.create_agreement(&provider(), "next".to_string(), &customer(), "1".to_string()),
        Ok(2)
    );
    assert_eq!(state.create_invoice(&vehicle, 2024, 7), Ok(()));
    assert_eq!(state.get_invoice(&customer(), 2).unwrap().month, 7);
}
