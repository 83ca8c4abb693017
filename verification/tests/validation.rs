use jellyswarrm::validation::{
    validate_password, validate_username, ValidationError, PASSWORD_MAX_LENGTH,
    USERNAME_MAX_LENGTH,
};

#[test]
fn username_rejects_empty() {
    assert!(matches!(validate_username(""), Err(ValidationError::UsernameRequired)));
    assert!(matches!(validate_username("   "), Err(ValidationError::UsernameRequired)));
}

#[test]
fn username_accepts_normal() {
    assert!(validate_username("alice").is_ok());
    assert!(validate_username("alice.bob_42-x@host").is_ok());
}

#[test]
fn username_rejects_invalid_chars() {
    assert!(matches!(validate_username("a b"), Err(ValidationError::UsernameInvalidChars)));
    assert!(matches!(validate_username("a/b"), Err(ValidationError::UsernameInvalidChars)));
}

#[test]
fn username_rejects_too_long() {
    let s = "a".repeat(USERNAME_MAX_LENGTH + 1);
    assert!(matches!(validate_username(&s), Err(ValidationError::UsernameTooLong { .. })));
}

#[test]
fn password_rejects_empty() {
    assert!(matches!(validate_password(""), Err(ValidationError::PasswordRequired)));
}

#[test]
fn password_rejects_too_long() {
    let s = "a".repeat(PASSWORD_MAX_LENGTH + 1);
    assert!(matches!(validate_password(&s), Err(ValidationError::PasswordTooLong { .. })));
}

#[test]
fn username_is_trimmed_before_it_is_judged() {
    assert!(validate_username("\t alice \u{3000}").is_ok());
    let padded = format!("  {}  ", "a".repeat(USERNAME_MAX_LENGTH));
    assert!(validate_username(&padded).is_ok());
}

#[test]
fn letters_of_other_scripts_are_accepted() {
    assert!(validate_username("größe").is_ok());
    assert!(validate_username("名前").is_ok());
    assert_eq!(validate_username("a★"), Err(ValidationError::UsernameInvalidChars));
}

#[test]
fn lengths_are_counted_in_characters() {
    assert!(validate_username(&"é".repeat(100)).is_ok());
    assert!(validate_username(&"é".repeat(128)).is_ok());
    assert_eq!(
        validate_username(&"é".repeat(129)),
        Err(ValidationError::UsernameTooLong { max: 128 })
    );
    assert!(validate_password(&"é".repeat(600)).is_ok());
    assert!(validate_password(&"é".repeat(PASSWORD_MAX_LENGTH)).is_ok());
    assert_eq!(
        validate_password(&"é".repeat(PASSWORD_MAX_LENGTH + 1)),
        Err(ValidationError::PasswordTooLong { max: 1024 })
    );
    assert!(validate_password(" ").is_ok());
}

#[test]
fn messages_of_validation_errors() {
    assert_eq!(ValidationError::UsernameRequired.message(), "Username is required");
    assert_eq!(
        ValidationError::UsernameTooLong { max: 128 }.message(),
        "Username is too long (maximum 128 characters)"
    );
    assert_eq!(
        ValidationError::UsernameInvalidChars.message(),
        "Username contains invalid characters"
    );
    assert_eq!(ValidationError::PasswordRequired.message(), "Password is required");
    assert_eq!(
        ValidationError::PasswordTooLong { max: 1024 }.message(),
        "Password is too long (maximum 1024 characters)"
    );
}
