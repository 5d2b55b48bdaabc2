use std::io::Read;

use vts::error::Error;
use vts::principal::Principal;
use vts::state::State;

fn gateway() -> Principal {
    Principal::from_slice(&[9, 9, 9]).unwrap()
}

fn agent() -> Principal {
    Principal::from_slice(&[1, 2, 3, 4, 5]).unwrap()
}

fn init_agent() -> State {
    let mut state = State::fresh(Principal::from_slice(&[0]).unwrap(), vec![gateway()]);
    state.add_admin(&agent(), &agent()).unwrap();
    state
}

#[test]
fn test_firmware() {
    let mut state = init_agent();
    state.register_user(&agent(), &agent(), None).unwrap();

    let err = state.get_firmware_requests_by_user(&agent()).unwrap_err();
    assert_eq!(Error::NotFound, err);

    // Request new firmware.
    state.request_firmware(&agent()).unwrap();

    // The user has an active firmware request.
    let err = state.request_firmware(&agent()).unwrap_err();
    assert_eq!(Error::AlreadyExists, err);

    // Now the user has an active firmware request.
    state.get_firmware_requests_by_user(&agent()).unwrap();

    // Uploading firmware closes the request.
    state
        .upload_firmware(
            &gateway(),
            &agent(),
            Principal::anonymous().as_slice().to_vec(),
            "arm64".to_string(),
            vec![0, 1, 2],
        )
        .unwrap();
    // That is why a new request can be made.
    state.request_firmware(&agent()).unwrap();
    let err = state.request_firmware(&agent()).unwrap_err();
    assert_eq!(Error::AlreadyExists, err);
}

#[test]
fn gateway_fetches_first_request() {
    let mut state = init_agent();
    let early = Principal::from_slice(&[1]).unwrap();
    let late = Principal::from_slice(&[2]).unwrap();
    state.register_user(&agent(), &late, None).unwrap();
    state.register_user(&agent(), &early, None).unwrap();
    assert_eq!(state.get_firmware_requests(&gateway()).unwrap_err(), Error::NotFound);
    assert_eq!(state.get_firmware_requests(&agent()).unwrap_err(), Error::Unauthorized);
    state.request_firmware(&late).unwrap();
    state.request_firmware(&early).unwrap();
    assert!(state.get_firmware_requests(&gateway()).unwrap().equals(&early));
}

#[test]
fn upload_records_vehicle_under_its_identity() {
    let mut state = init_agent();
    state.register_user(&agent(), &agent(), Some("a@b.c".to_string())).unwrap();
    let key = vec![1u8, 2, 3, 4];
    let id = Principal::self_authenticating(&key);
    assert_eq!(id.as_slice().len(), 29);
    assert_eq!(id.as_slice()[28], 2);
    // The identity is the one that the candid crate derives.
    assert_eq!(id.as_slice(), candid::Principal::self_authenticating(&key).as_slice());

    // Only a gateway uploads, and only for a registered customer.
    assert_eq!(
        state.upload_firmware(&agent(), &agent(), key.clone(), "x".to_string(), vec![7]),
        Err(Error::Unauthorized)
    );
    assert_eq!(
        state.upload_firmware(&gateway(), &gateway(), key.clone(), "x".to_string(), vec![7]),
        Err(Error::NotFound)
    );
    assert_eq!(state.get_vehicle(&agent(), &id).unwrap_err(), Error::NotFound);

    state.upload_firmware(&gateway(), &agent(), key.clone(), "x".to_string(), vec![7]).unwrap();
    let vehicle = state.get_vehicle(&agent(), &id).unwrap();
    assert_eq!(vehicle.public_key, key);
    assert_eq!(vehicle.arch, "x");
    assert_eq!(vehicle.firmware, vec![7]);
    assert!(vehicle.on_off);
    assert!(vehicle.provider.is_none());
    assert!(vehicle.customer.equals(&agent()));
    let user = state.get_user(&agent()).unwrap();
    assert_eq!(user.vehicles.len(), 1);
    assert!(user.vehicles[0].equals(&id));
    assert_eq!(user.email, Some("a@b.c".to_string()));

    // A second upload for the same key replaces the record and lists the
    // vehicle once.
    state.upload_firmware(&gateway(), &agent(), key, "y".to_string(), vec![8, 9]).unwrap();
    assert_eq!(state.get_vehicle(&agent(), &id).unwrap().arch, "y");
    assert_eq!(state.get_user(&agent()).unwrap().vehicles.len(), 1);
}

#[test]
fn users_come_and_go() {
    let mut state = init_agent();
    let user = Principal::from_slice(&[5, 5]).unwrap();
    assert_eq!(state.register_user(&user, &user, None), Err(Error::Unauthorized));
    assert_eq!(state.register_user(&agent(), &user, None), Ok(()));
    assert_eq!(state.register_user(&agent(), &user, None), Err(Error::AlreadyExists));
    assert!(state.is_user(&user));
    assert_eq!(state.get_vehicle(&user, &user).unwrap_err(), Error::NotFound);
    assert_eq!(state.delete_user(&user, &user), Err(Error::Unauthorized));
    assert_eq!(state.delete_user(&agent(), &user), Ok(()));
    assert_eq!(state.delete_user(&agent(), &user), Err(Error::NotFound));
    assert_eq!(state.get_user(&user).unwrap_err(), Error::Unauthorized);
}

#[test]
fn state_opens_on_empty_memory() {
    let state = State::open(agent(), vec![gateway()]).unwrap();
    assert!(state.is_canister(&agent()));
    assert!(state.is_gateway(&gateway()));
    assert!(!state.is_gateway(&agent()));
    assert!(!state.is_admin(&agent()));
}

#[test]
fn firmware_travels_in_an_archive() {
    assert_eq!(vts::firmware::archive_name("aaaaa-aa", "x86_64"), "aaaaa-aa.firmware.x86_64");
    assert_eq!(vts::firmware::archive_name("", ""), ".firmware.");
    let firmware = vec![1u8, 2, 3, 4, 5];
    let archive = vts::firmware::compress_firmware("aaaaa-aa", "x86_64", &firmware).unwrap();
    let mut reader = zip::ZipArchive::new(std::io::Cursor::new(archive)).unwrap();
    assert_eq!(reader.len(), 1);
    let mut file = reader.by_index(0).unwrap();
    assert_eq!(file.name(), "aaaaa-aa.firmware.x86_64");
    assert_eq!(file.compression(), zip::CompressionMethod::Stored);
    assert_eq!(file.unix_mode().map(|mode| mode & 0o777), Some(0o755));
    let mut content = Vec::new();
    file.read_to_end(&mut content).unwrap();
    assert_eq!(content, firmware);
}

#[test]
fn archive_depends_on_name_and_bytes_alone() {
    let first = vts::firmware::compress_firmware("aaaaa-aa", "x86_64", &[1, 2, 3]).unwrap();
    let again = vts::firmware::compress_firmware("aaaaa-aa", "x86_64", &[1, 2, 3]).unwrap();
    assert_eq!(first, again);
    let other = vts::firmware::compress_firmware("aaaaa-aa", "arm64", &[1, 2, 3]).unwrap();
    assert_ne!(first, other);
    // The file is dated with the first day that an archive can name.
    let mut reader = zip::ZipArchive::new(std::io::Cursor::new(first)).unwrap();
    let file = reader.by_index(0).unwrap();
    let date = file.last_modified().unwrap();
    assert_eq!((date.year(), date.month(), date.day()), (1980, 1, 1));
    assert_eq!((date.hour(), date.minute(), date.second()), (0, 0, 0));
}

#[test]
fn an_archive_or_a_reason() {
    assert_eq!(vts::firmware::archive_outcome(Some(vec![1, 2])), Ok(vec![1, 2]));
    assert_eq!(vts::firmware::archive_outcome(Some(vec![])), Ok(vec![]));
    assert_eq!(
        vts::firmware::archive_outcome(None),
        Err("failed to archive firmware".to_string())
    );
}
