use vts::error::Error;
use vts::principal::Principal;
use vts::records::AgreementState;
use vts::state::State;

fn gateway() -> Principal {
    Principal::from_slice(&[9, 9, 9]).unwrap()
}

fn agent() -> Principal {
    Principal::from_slice(&[1, 2, 3, 4, 5]).unwrap()
}

fn other() -> Principal {
    Principal::from_slice(&[7, 7]).unwrap()
}

fn public_key(tag: u8) -> Vec<u8> {
    vec![0x30, 0x56, tag, 1, 2, 3, 4, 5, 6, 7, 8]
}

/// A service whose first admin is the agent.
fn init_agent() -> State {
    let mut state = State::fresh(Principal::from_slice(&[0]).unwrap(), vec![gateway()]);
    state.add_admin(&agent(), &agent()).unwrap();
    state
}

fn register_user(state: &mut State, user: &Principal) {
    match state.register_user(&agent(), user, None) {
        Ok(()) | Err(Error::AlreadyExists) => (),
        Err(e) => panic!("{:?}", e),
    }
}

fn create_agreement(
    state: &mut State,
    name: &str,
    vh_customer: Principal,
    gas_price: &str,
    public_key: Vec<u8>,
) -> Result<u128, Error> {
    register_user(state, &agent());
    register_user(state, &vh_customer);
    state
        .upload_firmware(&gateway(), &vh_customer, public_key, "arm64".to_string(), vec![0, 1, 2])
        .unwrap();
    state.create_agreement(&agent(), name.to_string(), &vh_customer, gas_price.to_string())
}

#[test]
fn test_create_agreement() {
    let mut state = init_agent();
    let agreement_id =
        create_agreement(&mut state, "test", Principal::anonymous(), "10", public_key(1)).unwrap();
    assert_eq!(1, agreement_id, "first agreement ID should be equal to one");
}

#[test]
fn test_sign_agreement() {
    let mut state = init_agent();
    let agreement_id = create_agreement(&mut state, "test", agent(), "10", public_key(1)).unwrap();
    state.sign_agreement(&agent(), agreement_id).unwrap()
}

#[test]
fn test_sign_nonexistent_agreement() {
    let mut state = init_agent();
    register_user(&mut state, &agent());

    let nonexistent_agreement_id = 999999;
    let result = state.sign_agreement(&agent(), nonexistent_agreement_id).unwrap_err();
    assert_eq!(Error::NotFound, result);
}

#[test]
fn test_sign_agreement_twice() {
    let mut state = init_agent();
    let agreement_id = create_agreement(&mut state, "test", agent(), "100", public_key(1)).unwrap();

    let result_first = state.sign_agreement(&agent(), agreement_id);
    assert!(result_first.is_ok(), "should successfully sign the agreement the first time");

    let result_second = state.sign_agreement(&agent(), agreement_id).unwrap_err();
    assert_eq!(Error::AlreadyExists, result_second);
}

#[test]
fn test_create_duplicate_agreements() {
    let mut state = init_agent();
    let agreement_id_1 = create_agreement(&mut state, "test_1", agent(), "10", public_key(1)).unwrap();
    let agreement_id_2 = create_agreement(&mut state, "test_2", agent(), "10", public_key(1)).unwrap();
    assert_ne!(agreement_id_1, agreement_id_2, "agreement IDs should be different");
    assert_eq!(agreement_id_2, 2);
}

#[test]
fn test_link_vehicle_to_agreement_success() {
    let mut state = init_agent();
    let key = public_key(1);
    let vehicle = Principal::self_authenticating(&key);

    let agreement_id = create_agreement(&mut state, "test", agent(), "10", key).unwrap();

    let result = state.link_vehicle(&agent(), agreement_id, &vehicle);
    assert!(result.is_ok(), "should successfully link the vehicle to the agreement");
}

#[test]
fn test_link_vehicle_to_nonexistent_agreement() {
    let mut state = init_agent();
    register_user(&mut state, &agent());

    let nonexistent_agreement_id = 999999;
    let vehicle = Principal::anonymous();
    let result = state.link_vehicle(&agent(), nonexistent_agreement_id, &vehicle).unwrap_err();
    assert_eq!(Error::NotFound, result);
}

#[test]
fn test_get_vehicles_by_agreement() {
    let mut state = init_agent();
    let key = public_key(1);
    let vehicle = Principal::self_authenticating(&key);

    let agreement_id = create_agreement(&mut state, "test", agent(), "10", key).unwrap();
    state.link_vehicle(&agent(), agreement_id, &vehicle).unwrap();

    let vehicles = state.get_vehicles_by_agreement(&agent(), agreement_id).unwrap();
    assert_eq!(vehicles.len(), 1, "should return one vehicle");
    assert!(vehicles[0].equals(&vehicle), "should return the linked vehicle");
}

#[test]
fn test_get_vehicles_by_nonexistent_agreement() {
    let mut state = init_agent();
    register_user(&mut state, &agent());

    let nonexistent_agreement_id = 999999;
    let result = state.get_vehicles_by_agreement(&agent(), nonexistent_agreement_id).unwrap_err();
    assert_eq!(Error::NotFound, result);
}

#[test]
fn sign_twice_scenario() {
    // Customer C is registered; provider P offers an agreement at 1.35.
    let mut state = init_agent();
    let provider = agent();
    let customer = other();
    let id = create_agreement(&mut state, "gas", customer.clone(), "1.35", public_key(3)).unwrap();
    assert_eq!(state.sign_agreement(&customer, id), Ok(()));
    assert_eq!(state.sign_agreement(&customer, id), Err(Error::AlreadyExists));
    let agreements = state.get_user_agreements(&provider).unwrap();
    assert_eq!(agreements.len(), 1);
    assert_eq!(agreements[0].state, AgreementState::Signed);
    assert_eq!(agreements[0].conditions.gas_price, "1.35");
}

#[test]
fn wrong_signer_scenario() {
    let mut state = init_agent();
    let provider = agent();
    let customer = other();
    let id = create_agreement(&mut state, "gas", customer.clone(), "1.35", public_key(3)).unwrap();
    assert_eq!(state.sign_agreement(&provider, id), Err(Error::InvalidSigner));
    let agreements = state.get_user_agreements(&customer).unwrap();
    assert_eq!(agreements[0].state, AgreementState::Unsigned);
}

#[test]
fn create_agreement_checks_price_and_customer() {
    let mut state = init_agent();
    register_user(&mut state, &agent());
    assert_eq!(
        state.create_agreement(&agent(), "a".to_string(), &agent(), "one".to_string()),
        Err(Error::InvalidData)
    );
    assert_eq!(
        state.create_agreement(&agent(), "a".to_string(), &other(), "1".to_string()),
        Err(Error::NotFound)
    );
    assert_eq!(
        state.create_agreement(&other(), "a".to_string(), &agent(), "1".to_string()),
        Err(Error::Unauthorized)
    );
    // A refused offer takes no number.
    assert_eq!(state.create_agreement(&agent(), "a".to_string(), &agent(), "2.5".to_string()), Ok(1));
    // One user on both sides has the agreement once on its list.
    assert_eq!(state.get_user(&agent()).unwrap().agreements, vec![1]);
}

#[test]
fn link_vehicle_is_all_or_nothing() {
    let mut state = init_agent();
    let customer = other();
    let key = public_key(5);
    let vehicle = Principal::self_authenticating(&key);
    let id = create_agreement(&mut state, "gas", customer.clone(), "3", key).unwrap();

    // The provider cannot link, nor can a vehicle that is not there be linked.
    assert_eq!(state.link_vehicle(&agent(), id, &vehicle), Err(Error::InvalidSigner));
    assert_eq!(state.link_vehicle(&customer, id, &Principal::anonymous()), Err(Error::NotFound));
    assert!(state.get_vehicles_by_agreement(&customer, id).unwrap().is_empty());

    assert_eq!(state.link_vehicle(&customer, id, &vehicle), Ok(()));
    let record = state.get_vehicle(&agent(), &vehicle).unwrap();
    assert_eq!(record.agreement, Some(id));
    assert!(record.provider.unwrap().equals(&agent()));
    assert!(state.get_user(&agent()).unwrap().vehicles[0].equals(&vehicle));

    // Linking again is refused, under this agreement and under another.
    assert_eq!(state.link_vehicle(&customer, id, &vehicle), Err(Error::AlreadyExists));
    let second = state
        .create_agreement(&agent(), "more".to_string(), &customer, "4".to_string())
        .unwrap();
    assert_eq!(state.link_vehicle(&customer, second, &vehicle), Err(Error::AlreadyExists));
    assert!(state.get_vehicles_by_agreement(&customer, second).unwrap().is_empty());
}

#[test]
fn provider_switches_vehicle() {
    let mut state = init_agent();
    let customer = other();
    let key = public_key(6);
    let vehicle = Principal::self_authenticating(&key);
    let id = create_agreement(&mut state, "gas", customer.clone(), "3", key).unwrap();
    // Without a provider nobody can switch the vehicle.
    assert_eq!(state.turn_on_off_vehicle(&customer, &vehicle, false), Err(Error::InvalidSigner));
    state.link_vehicle(&customer, id, &vehicle).unwrap();
    assert_eq!(state.turn_on_off_vehicle(&customer, &vehicle, false), Err(Error::InvalidSigner));
    assert_eq!(state.turn_on_off_vehicle(&agent(), &vehicle, false), Ok(()));
    assert!(!state.get_vehicle(&customer, &vehicle).unwrap().on_off);
    assert_eq!(
        state.turn_on_off_vehicle(&agent(), &Principal::anonymous(), true),
        Err(Error::NotFound)
    );
}
