use rustybins::config::{
    is_valid_exploit, split_bins, valid_exploits, validate_required_flag_values, AppError,
};

#[test]
fn vocabulary_has_the_fixed_entries() {
    let v = valid_exploits();
    assert_eq!(v.len(), 15);
    assert_eq!(v[0], "bind-shell".to_string());
    assert_eq!(v[13], "sudo".to_string());
    assert_eq!(v[14], "suid".to_string());
}

#[test]
fn recognized_exploits_are_accepted() {
    assert!(is_valid_exploit("suid"));
    assert!(is_valid_exploit("sudo"));
    assert!(is_valid_exploit("non-interactive-reverse-shell"));
}

#[test]
fn unknown_exploits_are_rejected() {
    assert!(!is_valid_exploit("made-up-exploit"));
    assert!(!is_valid_exploit(""));
    assert!(!is_valid_exploit("SUID"));
}

#[test]
fn made_up_exploit_fails_validation_before_any_fetch() {
    let r = validate_required_flag_values("zzz", "made-up-exploit");
    match r {
        Err(AppError::InvalidExploit(m)) => assert_eq!(m, "made-up-exploit".to_string()),
        _ => panic!("expected an invalid-exploit configuration error"),
    }
}

#[test]
fn missing_bins_is_a_missing_flags_error() {
    assert!(matches!(
        validate_required_flag_values("", "suid"),
        Err(AppError::MissingFlags)
    ));
}

#[test]
fn missing_exploit_is_a_missing_flags_error() {
    assert!(matches!(
        validate_required_flag_values("bash,cat", ""),
        Err(AppError::MissingFlags)
    ));
}

#[test]
fn valid_inputs_pass_validation() {
    assert!(validate_required_flag_values("bash,cat", "suid").is_ok());
}

#[test]
fn bins_split_on_commas_and_trim() {
    let bins = split_bins("bash, cat ,tar");
    assert_eq!(
        bins,
        vec!["bash".to_string(), "cat".to_string(), "tar".to_string()]
    );
}

#[test]
fn single_bin_is_a_single_field() {
    assert_eq!(split_bins("bash"), vec!["bash".to_string()]);
}

#[test]
fn empty_fields_survive_splitting() {
    assert_eq!(
        split_bins("bash,,cat"),
        vec!["bash".to_string(), "".to_string(), "cat".to_string()]
    );
}
