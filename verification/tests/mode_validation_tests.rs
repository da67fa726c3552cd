use sqlly_textbox::{Mode, TextWrap, ValidationState};

#[test]
fn default_mode_is_single_line() {
    assert_eq!(Mode::default(), Mode::SingleLine);
    assert!(!Mode::default().is_multiline());
}

#[test]
fn multi_line_default_wrap_is_soft() {
    let m = Mode::MultiLine {
        min_lines: 1,
        max_lines: None,
        wrap: TextWrap::default(),
    };
    assert!(m.is_multiline());
    assert_eq!(
        m,
        Mode::MultiLine {
            min_lines: 1,
            max_lines: None,
            wrap: TextWrap::Soft
        }
    );
}

#[test]
fn mode_clone_is_equal() {
    let m = Mode::MultiLine {
        min_lines: 3,
        max_lines: Some(5),
        wrap: TextWrap::NoWrap,
    };
    assert_eq!(m.clone(), m);
}

#[test]
fn default_is_none() {
    assert_eq!(ValidationState::default(), ValidationState::NotValidated);
    assert!(!ValidationState::default().is_known());
}

#[test]
fn helper_classifiers() {
    assert!(ValidationState::Invalid("nope".into()).is_invalid());
    assert!(ValidationState::Warning("todo".into()).is_warning());
    assert!(!ValidationState::Valid.is_invalid());
    assert!(!ValidationState::Validating.is_warning());
    assert_eq!(ValidationState::Invalid("x".into()).message(), Some("x"));
    assert_eq!(ValidationState::Valid.message(), None);
}

#[test]
fn known_states_and_warning_message() {
    assert!(!ValidationState::Validating.is_known());
    assert!(ValidationState::Valid.is_known());
    assert!(ValidationState::Warning("w".into()).is_known());
    assert!(ValidationState::Invalid("i".into()).is_known());
    assert_eq!(ValidationState::Warning("soft".into()).message(), Some("soft"));
    assert_eq!(ValidationState::NotValidated.message(), None);
    assert_eq!(ValidationState::Validating.message(), None);
}
