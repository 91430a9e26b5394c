use scuffle_api::credentials::{validate_email, validate_password, validate_username, CredentialError};

#[test]
fn username_rules() {
    assert_eq!(validate_username("alice_01"), Ok(()));
    assert_eq!(validate_username("al"), Err(CredentialError::UsernameTooShort));
    assert_eq!(validate_username("a".repeat(21).as_str()), Err(CredentialError::UsernameTooLong));
    assert_eq!(validate_username("Alice"), Err(CredentialError::UsernameInvalidCharacter));
    assert_eq!(validate_username("al ice"), Err(CredentialError::UsernameInvalidCharacter));
}

#[test]
fn password_rules() {
    assert_eq!(validate_password("Str0ng!"), Ok(()));
    assert_eq!(validate_password("a1"), Err(CredentialError::PasswordTooShort));
    assert_eq!(validate_password("abcdefgh"), Err(CredentialError::PasswordMissingDigit));
    assert_eq!(validate_password("12345678"), Err(CredentialError::PasswordMissingLetter));
    assert_eq!(validate_password("a1".repeat(51).as_str()), Err(CredentialError::PasswordTooLong));
}

#[test]
fn email_rules() {
    assert_eq!(validate_email("bob@x"), Ok(()));
    assert_eq!(validate_email("@x"), Err(CredentialError::EmailMalformed));
    assert_eq!(validate_email("bob@"), Err(CredentialError::EmailMalformed));
    assert_eq!(validate_email("a@b@c"), Err(CredentialError::EmailMalformed));
    assert_eq!(validate_email("plain"), Err(CredentialError::EmailMalformed));
    let long = format!("{}@x", "a".repeat(100));
    assert_eq!(validate_email(&long), Err(CredentialError::EmailTooLong));
}
