use freemail_shared::password::{validate_password, Password, PasswordError};

#[test]
fn valid_password_is_kept_unchanged() {
    let p = Password::new(String::from("aB3._-+=!?@#$%&*()[]{}:;,/")).unwrap();
    assert_eq!(p.as_str(), "aB3._-+=!?@#$%&*()[]{}:;,/");
    assert!(p.validate().is_ok());
}

#[test]
fn empty_password_is_blank() {
    assert_eq!(Password::new(String::new()).unwrap_err(), PasswordError::Blank);
}

#[test]
fn all_blank_password_is_blank() {
    assert_eq!(
        Password::new(String::from(" \t\r\n\x0B\x0C\0 ")).unwrap_err(),
        PasswordError::Blank
    );
}

#[test]
fn first_invalid_character_is_reported() {
    assert_eq!(
        Password::new(String::from("ab|cd^ef")).unwrap_err(),
        PasswordError::InvalidChar { char: '|' }
    );
}

#[test]
fn invalid_character_mid_string_is_reported() {
    assert_eq!(
        Password::new(String::from("good pass")).unwrap_err(),
        PasswordError::InvalidChar { char: ' ' }
    );
}

#[test]
fn non_ascii_character_is_rejected() {
    assert_eq!(
        Password::new(String::from("pässword")).unwrap_err(),
        PasswordError::InvalidChar { char: 'ä' }
    );
}

#[test]
fn validate_password_agrees_with_construction() {
    assert!(validate_password("secret123").is_ok());
    assert_eq!(validate_password(""), Err(PasswordError::Blank));
    assert_eq!(
        validate_password("a\tb"),
        Err(PasswordError::InvalidChar { char: '\t' })
    );
}

#[test]
fn password_ordering_and_equality() {
    let a = Password::new(String::from("aaa")).unwrap();
    let b = Password::new(String::from("bbb")).unwrap();
    assert!(a < b);
    assert_eq!(a, a.clone());
}
