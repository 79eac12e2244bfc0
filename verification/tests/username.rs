use freemail_shared::username::{validate_username, Username, UsernameError};

#[test]
fn valid_username_is_kept_unchanged() {
    let u = Username::new(String::from("john.doe42")).unwrap();
    assert_eq!(u.as_str(), "john.doe42");
    assert!(u.validate().is_ok());
}

#[test]
fn empty_username_is_blank() {
    assert_eq!(Username::new(String::new()).unwrap_err(), UsernameError::Blank);
}

#[test]
fn all_blank_username_is_blank() {
    assert_eq!(
        Username::new(String::from("  \t ")).unwrap_err(),
        UsernameError::Blank
    );
}

#[test]
fn uppercase_is_rejected() {
    assert_eq!(
        Username::new(String::from("John")).unwrap_err(),
        UsernameError::InvalidChar { char: 'J' }
    );
}

#[test]
fn first_invalid_username_character_is_reported() {
    assert_eq!(
        Username::new(String::from("jo_hn-doe")).unwrap_err(),
        UsernameError::InvalidChar { char: '_' }
    );
}

#[test]
fn validate_username_agrees_with_construction() {
    assert!(validate_username("mail.user.9").is_ok());
    assert_eq!(validate_username(" "), Err(UsernameError::Blank));
    assert_eq!(
        validate_username("a b"),
        Err(UsernameError::InvalidChar { char: ' ' })
    );
}
