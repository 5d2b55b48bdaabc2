use vts::codec::{decode, encode};
use vts::error::{Error, ERR_UNAUTHORIZED};
use vts::principal::{bytes_copy, bytes_eq, Principal};
use vts::records::{
    Agreement, AgreementConditions, AgreementState, Invoice, InvoiceStatus, User, Vehicle,
};
use vts::table::{Id, Present};
use vts::telemetry::{
    AccumulatedTelemetryMonthy, AccumulatedTelemetryYearly, DayTotal, Sample, TelemetryType,
};

fn principal(tag: u8) -> Principal {
    Principal::from_slice(&[tag, 1, 2, 3]).unwrap()
}

fn vehicle() -> Vehicle {
    Vehicle {
        provider: Some(principal(1)),
        customer: principal(2),
        agreement: Some(7),
        public_key: vec![1, 2, 3],
        arch: "aarch64 — ü".to_string(),
        firmware: vec![0; 300],
        on_off: false,
        telemetry: vec![
            Sample { t_type: TelemetryType::Gas, year: 2024, month: 7, day: 1, value: 88 },
            Sample { t_type: TelemetryType::Gas, year: -5, month: 12, day: 31, value: u128::MAX },
        ],
        accumulated_telemetry: vec![AccumulatedTelemetryYearly {
            t_type: TelemetryType::Gas,
            year: 2024,
            value: 100,
            monthly: vec![AccumulatedTelemetryMonthy {
                month: 6,
                value: 100,
                daily: vec![DayTotal { day: 15, value: 100 }],
            }],
        }],
        invoices: vec![1, 2, u128::MAX],
    }
}

#[test]
fn vehicle_round_trip() {
    let v = vehicle();
    let bytes = encode(&v);
    let back: Vehicle = decode(&bytes).unwrap();
    assert!(back.provider.as_ref().unwrap() == &principal(1));
    assert!(back.customer == principal(2));
    assert_eq!(back.agreement, Some(7));
    assert_eq!(back.public_key, v.public_key);
    assert_eq!(back.arch, v.arch);
    assert_eq!(back.firmware, v.firmware);
    assert_eq!(back.on_off, v.on_off);
    assert_eq!(back.telemetry, v.telemetry);
    assert_eq!(back.invoices, v.invoices);
    assert_eq!(back.accumulated_telemetry.len(), 1);
    assert_eq!(back.accumulated_telemetry[0].year, 2024);
    assert_eq!(back.accumulated_telemetry[0].value, 100);
    assert_eq!(back.accumulated_telemetry[0].monthly[0].month, 6);
    assert_eq!(back.accumulated_telemetry[0].monthly[0].daily, vec![DayTotal { day: 15, value: 100 }]);
    // The same record is always written as the same bytes.
    assert_eq!(encode(&back), bytes);
}

#[test]
fn user_round_trip() {
    for email in [None, Some(String::new()), Some("c@staex.io".to_string())] {
        let user = User {
            vehicles: vec![principal(1), Principal::anonymous()],
            agreements: vec![3, 1, 2],
            email: email.clone(),
        };
        let back: User = decode(&encode(&user)).unwrap();
        assert!(back.vehicles == user.vehicles);
        assert_eq!(back.agreements, vec![3, 1, 2]);
        assert_eq!(back.email, email);
    }
}

#[test]
fn agreement_round_trip() {
    let agreement = Agreement {
        id: 42,
        name: "Solar Energy GmbH".to_string(),
        vh_provider: principal(1),
        vh_customer: principal(2),
        state: AgreementState::Signed,
        conditions: AgreementConditions { gas_price: "1.35".to_string() },
        vehicles: vec![principal(9)],
    };
    let back: Agreement = decode(&encode(&agreement)).unwrap();
    assert_eq!(back.id, 42);
    assert_eq!(back.name, "Solar Energy GmbH");
    assert!(back.vh_provider == principal(1));
    assert!(back.vh_customer == principal(2));
    assert_eq!(back.state, AgreementState::Signed);
    assert_eq!(back.conditions.gas_price, "1.35");
    assert!(back.vehicles == vec![principal(9)]);
}

#[test]
fn invoice_round_trip() {
    let invoice = Invoice {
        id: 2,
        status: InvoiceStatus::Paid,
        vehicle: principal(5),
        agreement: 1,
        year: 2024,
        month: 7,
        total_cost: 23_000_000_000,
    };
    let bytes = encode(&invoice);
    // 16 + 1 + (8 + 4) + 16 + 4 + 1 + 16 bytes
    assert_eq!(bytes.len(), 66);
    let back: Invoice = decode(&bytes).unwrap();
    assert_eq!(back.id, 2);
    assert_eq!(back.status, InvoiceStatus::Paid);
    assert!(back.vehicle == principal(5));
    assert_eq!((back.agreement, back.year, back.month, back.total_cost), (1, 2024, 7, 23_000_000_000));
}

#[test]
fn primitive_encodings() {
    assert_eq!(encode(&7u8), vec![7]);
    assert_eq!(encode(&true), vec![1]);
    assert_eq!(encode(&1u128), {
        let mut b = vec![0u8; 16];
        b[0] = 1;
        b
    });
    assert_eq!(encode(&0i32), vec![0, 0, 0, 128]);
    assert_eq!(encode(&i32::MIN), vec![0, 0, 0, 0]);
    assert_eq!(encode(&-1i32), vec![255, 255, 255, 127]);
    assert_eq!(decode::<i32>(&[255, 255, 255, 255]), Some(i32::MAX));
    assert_eq!(encode(&vec![5u8, 6]), vec![2, 0, 0, 0, 0, 0, 0, 0, 5, 6]);
    assert_eq!(encode(&Some(9u8)), vec![1, 9]);
    assert_eq!(encode(&None::<u8>), vec![0]);
    assert_eq!(encode(&"é".to_string()), vec![2, 0, 0, 0, 0, 0, 0, 0, 0xc3, 0xa9]);
    assert_eq!(encode(&AgreementState::Signed), vec![1]);
    assert_eq!(encode(&Present), Vec::<u8>::new());
    // A number as a key: most significant byte first.
    assert_eq!(encode(&Id(258)), {
        let mut b = vec![0u8; 16];
        b[14] = 1;
        b[15] = 2;
        b
    });
    assert_eq!(decode::<Id>(&encode(&Id(u128::MAX - 3))).unwrap().0, u128::MAX - 3);
    assert!(encode(&Id(255)) < encode(&Id(256)));
}

#[test]
fn bytes_that_are_no_record() {
    let bytes = encode(&vehicle());
    // Too short, too long, or spoiled.
    assert!(decode::<Vehicle>(&bytes[..bytes.len() - 1]).is_none());
    let mut longer = bytes.clone();
    longer.push(0);
    assert!(decode::<Vehicle>(&longer).is_none());
    assert!(decode::<Vehicle>(&[]).is_none());
    assert!(decode::<bool>(&[2]).is_none());
    assert!(decode::<Option<u8>>(&[2, 0]).is_none());
    assert!(decode::<AgreementState>(&[2]).is_none());
    assert!(decode::<u128>(&[0; 15]).is_none());
    // A text that is no UTF-8.
    assert!(decode::<String>(&[1, 0, 0, 0, 0, 0, 0, 0, 0xff]).is_none());
    // A list that announces more than there is.
    assert!(decode::<Vec<u8>>(&[3, 0, 0, 0, 0, 0, 0, 0, 1, 2]).is_none());
    // A principal of thirty bytes.
    let mut long = vec![30u8, 0, 0, 0, 0, 0, 0, 0];
    long.extend_from_slice(&[1u8; 30]);
    assert!(decode::<Principal>(&long).is_none());
    assert!(decode::<Vec<u8>>(&long).is_some());
}

#[test]
fn principals() {
    assert_eq!(Principal::anonymous().as_slice(), &[4u8]);
    assert!(Principal::from_slice(&[0; 29]).is_some());
    assert!(Principal::from_slice(&[0; 30]).is_none());
    assert!(Principal::from_slice(&[]).is_some());
    let p = principal(3);
    assert!(p.equals(&p.clone()));
    assert!(p == principal(3));
    assert!(p != principal(4));
    assert!(!p.equals(&Principal::from_slice(&[3, 1, 2]).unwrap()));
    assert!(bytes_eq(&[1, 2], &[1, 2]));
    assert!(!bytes_eq(&[1, 2], &[1, 3]));
    assert!(!bytes_eq(&[1, 2], &[1]));
    assert_eq!(bytes_copy(&[1, 2, 3]), vec![1, 2, 3]);
    // Two keys, two identities; one key, one identity.
    let a = Principal::self_authenticating(&[1, 2, 3]);
    assert!(a == Principal::self_authenticating(&[1, 2, 3]));
    assert!(a != Principal::self_authenticating(&[1, 2, 4]));
}

#[test]
fn errors_as_text() {
    assert_eq!(Error::Unauthorized.to_text(), "unauthorized");
    assert_eq!(Error::Unauthorized.to_text(), ERR_UNAUTHORIZED);
    assert_eq!(Error::NotFound.to_text(), "unknown");
    assert_eq!(Error::Internal.to_text(), "unknown");
    assert_eq!(Error::from("unauthorized".to_string()), Error::Unauthorized);
    assert_eq!(Error::from("unknown".to_string()), Error::Internal);
    assert_eq!(Error::from(String::new()), Error::Internal);
}
