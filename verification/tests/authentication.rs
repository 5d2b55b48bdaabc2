use vts::error::Error;
use vts::principal::Principal;
use vts::state::State;

fn principal(tag: u8) -> Principal {
    Principal::from_slice(&[tag, 1, 2, 3]).unwrap()
}

fn service() -> State {
    State::fresh(principal(200), vec![principal(100)])
}

#[test]
fn test_add_admin() {
    let mut state = service();
    let agent = principal(1);
    assert_eq!(state.add_admin(&agent, &agent), Ok(()));

    let new_admin = principal(1);
    let result = state.add_admin(&agent, &new_admin);
    assert!(result.is_ok(), "should add new admin");
}

#[test]
fn test_delete_admin() {
    let mut state = service();
    let agent = principal(1);
    assert_eq!(state.add_admin(&agent, &agent), Ok(()));

    let new_admin = Principal::anonymous();

    let result_1 = state.add_admin(&agent, &new_admin);
    assert!(result_1.is_ok(), "should add new admin");

    let result_2 = state.delete_admin(&agent, &new_admin);
    assert!(result_2.is_ok(), "should delete existing admin");
    assert!(!state.is_admin(&new_admin));
    assert_eq!(state.delete_admin(&agent, &new_admin), Err(Error::NotFound));
    assert_eq!(state.delete_admin(&agent, &agent), Err(Error::InvalidSigner));
}
