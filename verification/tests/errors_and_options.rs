use tekton::errors::TektonError;

#[test]
fn test_tekton_error_enum() {
    let reason = "test error".to_string();
    let err = TektonError::Reason(reason.clone());
    let string_err = err.message();
    assert_eq!(string_err, reason);
}

#[test]
fn test_tekton_switch() {
    let switch = TektonError::SwitchModes(true);
    assert_eq!(switch, TektonError::SwitchModes(true));
}

#[test]
fn test_opt() {
    let s = Some(3);
    assert_eq!(s.is_none(), false);

    assert_eq!(s.is_some(), true);
}
