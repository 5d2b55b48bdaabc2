use k256::ecdsa::signature::Signer;
use k256::ecdsa::{Signature, SigningKey};
use k256::pkcs8::EncodePublicKey;
use vts::calendar::{previous_month, Date};
use vts::error::Error;
use vts::fold::put_sample;
use vts::principal::Principal;
use vts::rules::StoreTelemetryResponse;
use vts::state::State;
use vts::telemetry::{AccumulatedTelemetryYearly, Sample, TelemetryType};
use vts::wire::{decode_telemetry, encode_telemetry, StoreTelemetryRequest};

// 2024-07-02 00:00:00 UTC, in nanoseconds since the epoch.
const SECOND_OF_JULY: u64 = 1_719_878_400_000_000_000;

fn gateway() -> Principal {
    Principal::from_slice(&[9, 9, 9]).unwrap()
}

fn canister() -> Principal {
    Principal::from_slice(&[0]).unwrap()
}

fn agent() -> Principal {
    Principal::from_slice(&[1, 2, 3, 4, 5]).unwrap()
}

fn init_agent() -> State {
    let mut state = State::fresh(canister(), vec![gateway()]);
    state.add_admin(&agent(), &agent()).unwrap();
    state.register_user(&agent(), &agent(), None).unwrap();
    state
}

fn generate_vehicle(seed: u8) -> (SigningKey, Vec<u8>, Principal) {
    let signing_key = SigningKey::from_slice(&[seed; 32]).unwrap();
    let public_key = signing_key.verifying_key().to_public_key_der().unwrap().as_bytes().to_vec();
    let vehicle = Principal::self_authenticating(&public_key);
    (signing_key, public_key, vehicle)
}

fn year<'a>(
    totals: &'a [AccumulatedTelemetryYearly],
    t_type: TelemetryType,
    year: i32,
) -> Option<&'a AccumulatedTelemetryYearly> {
    totals.iter().find(|y| y.t_type == t_type && y.year == year)
}

fn month_value(total: &AccumulatedTelemetryYearly, month: u8) -> Option<u128> {
    total.monthly.iter().find(|m| m.month == month).map(|m| m.value)
}

#[test]
fn test_telemetry() {
    let mut state = init_agent();
    let (signing_key, public_key, vehicle) = generate_vehicle(7);
    state
        .upload_firmware(&gateway(), &agent(), public_key, "arm64".to_string(), vec![0, 1, 2])
        .unwrap();

    let telemetry = StoreTelemetryRequest { value: 88, t_type: TelemetryType::Gas };
    let telemetry = encode_telemetry(&telemetry);
    let signature: Signature = signing_key.sign(&telemetry);
    let signature = signature.to_vec();
    state.store_telemetry(&vehicle, &telemetry, &signature, SECOND_OF_JULY).unwrap();
}

#[test]
fn telemetry_happy_path() {
    let mut state = init_agent();
    let (signing_key, public_key, vehicle) = generate_vehicle(7);
    state
        .upload_firmware(&gateway(), &agent(), public_key, "arm64".to_string(), vec![0, 1, 2])
        .unwrap();
    let payload = encode_telemetry(&StoreTelemetryRequest { value: 88, t_type: TelemetryType::Gas });
    let signature: Signature = signing_key.sign(&payload);
    assert_eq!(
        state.store_telemetry(&vehicle, &payload, &signature.to_vec(), SECOND_OF_JULY),
        Ok(StoreTelemetryResponse::On)
    );
    // The sample waits under the day of the clock.
    let waiting = state.get_vehicle(&agent(), &vehicle).unwrap().telemetry;
    assert_eq!(
        waiting,
        vec![Sample { t_type: TelemetryType::Gas, year: 2024, month: 7, day: 2, value: 88 }]
    );
    // Only the canister runs the daily job.
    assert_eq!(state.accumulate_telemetry_data(&agent(), SECOND_OF_JULY), Err(Error::Unauthorized));
    assert_eq!(state.accumulate_telemetry_data(&canister(), SECOND_OF_JULY), Ok(()));
    let totals = state.get_aggregated_data(&agent(), &vehicle).unwrap();
    let total = year(&totals, TelemetryType::Gas, 2024).unwrap();
    assert_eq!(total.value, 88);
    assert_eq!(month_value(total, 7), Some(88));
    assert_eq!(total.monthly[0].daily[0].day, 2);
    assert_eq!(total.monthly[0].daily[0].value, 88);
    // The fold took the samples that waited.
    assert!(state.get_vehicle(&agent(), &vehicle).unwrap().telemetry.is_empty());
}

#[test]
fn telemetry_bad_signature() {
    let mut state = init_agent();
    let (signing_key, public_key, vehicle) = generate_vehicle(7);
    state
        .upload_firmware(&gateway(), &agent(), public_key, "arm64".to_string(), vec![0, 1, 2])
        .unwrap();
    let payload = encode_telemetry(&StoreTelemetryRequest { value: 88, t_type: TelemetryType::Gas });
    let signature: Signature = signing_key.sign(&payload);
    let mut flipped = signature.to_vec();
    flipped[63] ^= 1;
    assert_eq!(
        state.store_telemetry(&vehicle, &payload, &flipped, SECOND_OF_JULY),
        Err(Error::InvalidSignature)
    );
    assert!(state.get_vehicle(&agent(), &vehicle).unwrap().telemetry.is_empty());

    // A signature over other bytes does not cover the payload either.
    let mut other = payload.clone();
    other[0] ^= 1;
    assert_eq!(
        state.store_telemetry(&vehicle, &other, &signature.to_vec(), SECOND_OF_JULY),
        Err(Error::InvalidSignature)
    );
}

#[test]
fn telemetry_errors_in_order() {
    let mut state = init_agent();
    let (signing_key, public_key, vehicle) = generate_vehicle(9);
    let payload = encode_telemetry(&StoreTelemetryRequest { value: 1, t_type: TelemetryType::Gas });
    let signature: Signature = signing_key.sign(&payload);
    let signature = signature.to_vec();

    // Bytes that are no signature, before anything else.
    assert_eq!(
        state.store_telemetry(&vehicle, &payload, &signature[..63], SECOND_OF_JULY),
        Err(Error::InvalidSignatureFormat)
    );
    assert_eq!(
        state.store_telemetry(&vehicle, &payload, &[0u8; 64], SECOND_OF_JULY),
        Err(Error::InvalidSignatureFormat)
    );
    // A vehicle that is not there.
    assert_eq!(
        state.store_telemetry(&vehicle, &payload, &signature, SECOND_OF_JULY),
        Err(Error::NotFound)
    );
    // A stored key that is no key.
    let broken = vec![1u8, 2, 3];
    let broken_id = Principal::self_authenticating(&broken);
    state.upload_firmware(&gateway(), &agent(), broken, "arm64".to_string(), vec![]).unwrap();
    assert_eq!(
        state.store_telemetry(&broken_id, &payload, &signature, SECOND_OF_JULY),
        Err(Error::Internal)
    );
    // A payload that is signed but is no sample.
    state.upload_firmware(&gateway(), &agent(), public_key, "arm64".to_string(), vec![]).unwrap();
    let junk = vec![255u8, 0];
    let junk_signature: Signature = signing_key.sign(&junk);
    assert_eq!(
        state.store_telemetry(&vehicle, &junk, &junk_signature.to_vec(), SECOND_OF_JULY),
        Err(Error::DecodeTelemetry)
    );
}

#[test]
fn switched_off_vehicle_is_told_so() {
    let mut state = init_agent();
    let customer = Principal::from_slice(&[4, 4]).unwrap();
    state.register_user(&agent(), &customer, None).unwrap();
    let (signing_key, public_key, vehicle) = generate_vehicle(11);
    state.upload_firmware(&gateway(), &customer, public_key, "arm64".to_string(), vec![]).unwrap();
    let id =
        state.create_agreement(&agent(), "gas".to_string(), &customer, "2".to_string()).unwrap();
    state.link_vehicle(&customer, id, &vehicle).unwrap();
    state.turn_on_off_vehicle(&agent(), &vehicle, false).unwrap();
    let payload = encode_telemetry(&StoreTelemetryRequest { value: 5, t_type: TelemetryType::Gas });
    let signature: Signature = signing_key.sign(&payload);
    assert_eq!(
        state.store_telemetry(&vehicle, &payload, &signature.to_vec(), SECOND_OF_JULY),
        Ok(StoreTelemetryResponse::Off)
    );
    // The sample is kept all the same.
    assert_eq!(state.get_vehicle(&customer, &vehicle).unwrap().telemetry.len(), 1);
}

fn record(state: &mut State, vehicle: &Principal, year: i32, month: u8, day: u8, value: u128) {
    let request = StoreTelemetryRequest { value, t_type: TelemetryType::Gas };
    let reply = state.record_telemetry(
        vehicle,
        true,
        true,
        true,
        Some(request),
        Some(Date { year, month, day }),
    );
    assert_eq!(reply, Ok(StoreTelemetryResponse::On));
}

#[test]
fn test_get_aggregated_data() {
    let mut state = init_agent();
    let key = vec![3u8, 1, 4, 1, 5];
    let vehicle = Principal::self_authenticating(&key);
    state.upload_firmware(&gateway(), &agent(), key, "amd64".to_string(), vec![]).unwrap();

    for (day, value) in [(1, 21), (2, 91), (4, 62), (5, 66), (6, 25)] {
        record(&mut state, &vehicle, 2023, 7, day, value);
    }
    for (day, value) in [(2, 52), (5, 79), (9, 67), (12, 51), (15, 45)] {
        record(&mut state, &vehicle, 2024, 6, day, value);
    }
    for (day, value) in [(1, 67), (2, 99), (4, 87), (5, 21), (6, 72)] {
        record(&mut state, &vehicle, 2024, 7, day, value);
    }
    state.accumulate_on(&canister(), Date { year: 2024, month: 7, day: 7 }).unwrap();
    // One more sample comes in for a month that is folded already.
    record(&mut state, &vehicle, 2023, 6, 15, 96);
    state.accumulate_on(&canister(), Date { year: 2024, month: 7, day: 8 }).unwrap();

    let aggregated_data = state.get_aggregated_data(&agent(), &vehicle).unwrap();

    year(&aggregated_data, TelemetryType::Gas, 2023).unwrap();
    year(&aggregated_data, TelemetryType::Gas, 2024).unwrap();

    assert_eq!(year(&aggregated_data, TelemetryType::Gas, 2023).unwrap().value, 361);
    assert_eq!(year(&aggregated_data, TelemetryType::Gas, 2024).unwrap().value, 640);
    assert_eq!(
        month_value(year(&aggregated_data, TelemetryType::Gas, 2024).unwrap(), 6).unwrap(),
        294
    );
    assert_eq!(
        month_value(year(&aggregated_data, TelemetryType::Gas, 2024).unwrap(), 7).unwrap(),
        346
    );
}

#[test]
fn every_total_is_the_sum_below_it() {
    let mut totals: Vec<AccumulatedTelemetryYearly> = Vec::new();
    let samples = [
        (2024, 1, 1, 10u128),
        (2024, 1, 1, 5),
        (2024, 1, 2, 7),
        (2024, 2, 28, 1),
        (2025, 12, 31, 1000),
        (2024, 1, 2, 3),
    ];
    for (year, month, day, value) in samples {
        let sample = Sample { t_type: TelemetryType::Gas, year, month, day, value };
        assert!(put_sample(&mut totals, sample));
    }
    assert_eq!(totals.len(), 2);
    for y in &totals {
        assert_eq!(y.value, y.monthly.iter().map(|m| m.value).sum::<u128>());
        for m in &y.monthly {
            assert_eq!(m.value, m.daily.iter().map(|d| d.value).sum::<u128>());
        }
    }
    assert_eq!(totals[0].value, 26);
    assert_eq!(totals[0].monthly[0].daily[0].value, 15);
    assert_eq!(totals[0].monthly[0].daily[1].value, 10);
    assert_eq!(totals[1].value, 1000);
}

#[test]
fn a_total_that_does_not_fit_stops_the_fold() {
    let mut totals: Vec<AccumulatedTelemetryYearly> = Vec::new();
    let big = Sample { t_type: TelemetryType::Gas, year: 2024, month: 1, day: 1, value: u128::MAX };
    assert!(put_sample(&mut totals, big));
    let one = Sample { t_type: TelemetryType::Gas, year: 2024, month: 1, day: 1, value: 1 };
    assert!(!put_sample(&mut totals, one));

    // In the daily job the vehicle keeps what it had.
    let mut state = init_agent();
    let key = vec![8u8];
    let vehicle = Principal::self_authenticating(&key);
    state.upload_firmware(&gateway(), &agent(), key, "amd64".to_string(), vec![]).unwrap();
    record(&mut state, &vehicle, 2024, 1, 1, u128::MAX);
    record(&mut state, &vehicle, 2024, 1, 2, 1);
    assert_eq!(
        state.accumulate_on(&canister(), Date { year: 2024, month: 1, day: 3 }),
        Err(Error::Internal)
    );
    assert_eq!(state.get_vehicle(&agent(), &vehicle).unwrap().telemetry.len(), 2);
    assert!(state.get_aggregated_data(&agent(), &vehicle).unwrap().is_empty());
}

#[test]
fn payload_is_what_bincode_writes() {
    let config = bincode::config::standard();
    for value in [0u128, 88, 250, 251, 65_535, 65_536, u32::MAX as u128, 1 << 40, u128::MAX] {
        let request = StoreTelemetryRequest { value, t_type: TelemetryType::Gas };
        let ours = encode_telemetry(&request);
        let theirs = bincode::encode_to_vec((value, 0u32), config).unwrap();
        assert_eq!(ours, theirs);
        assert_eq!(decode_telemetry(&theirs), Some(request));
    }
    assert_eq!(encode_telemetry(&StoreTelemetryRequest { value: 88, t_type: TelemetryType::Gas }), vec![
        88, 0
    ]);
    assert_eq!(
        encode_telemetry(&StoreTelemetryRequest { value: 300, t_type: TelemetryType::Gas }),
        vec![251, 44, 1, 0]
    );
    // A number may come in more bytes than it needs, and bytes behind a
    // payload are left alone.
    assert_eq!(
        decode_telemetry(&[252, 88, 0, 0, 0, 0, 9, 9]),
        Some(StoreTelemetryRequest { value: 88, t_type: TelemetryType::Gas })
    );
    // No payload: nothing, half a number, a kind that is none, a marker
    // that is none.
    assert_eq!(decode_telemetry(&[]), None);
    assert_eq!(decode_telemetry(&[251, 1]), None);
    assert_eq!(decode_telemetry(&[88, 1]), None);
    assert_eq!(decode_telemetry(&[255, 0]), None);
    assert_eq!(decode_telemetry(&[88, 253, 0, 0, 0, 0, 0, 0, 0, 0]), None);
}

#[test]
fn month_before() {
    assert_eq!(previous_month(2024, 7), Some((2024, 6)));
    assert_eq!(previous_month(2024, 1), Some((2023, 12)));
    assert_eq!(previous_month(i32::MIN, 1), None);
    assert_eq!(previous_month(i32::MIN, 2), Some((i32::MIN, 1)));
    assert_eq!(previous_month(2024, 0), None);
    assert_eq!(previous_month(2024, 13), None);
}
