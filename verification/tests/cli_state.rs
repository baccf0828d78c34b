use dkb::cli_state::CliState;

#[test]
fn cli_state_test_resolve_index() {
    let id1 = uuid::Uuid::new_v4().as_u128();
    let id2 = uuid::Uuid::new_v4().as_u128();
    let mut state = CliState::default();
    state.set_last_list(vec![id1, id2]);
    assert_eq!(state.resolve_index(0), Some(id1));
    assert_eq!(state.resolve_index(1), Some(id2));
    assert_eq!(state.resolve_index(2), None);
}

#[test]
fn test_clear_current() {
    let id = uuid::Uuid::new_v4().as_u128();
    let mut state = CliState::default();
    state.set_current(id);
    state.clear_current();
    assert!(state.current.is_none());
}

#[test]
fn default_state_is_empty() {
    let state = CliState::default();
    assert!(state.last_list.is_empty());
    assert!(state.current.is_none());
}
