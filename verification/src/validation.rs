//! Input validation for credentials at the auth boundary.
use vstd::prelude::*;
use vstd::string::*;

use crate::text;

verus! {

/// Why a username or a password was turned down.
#[derive(Debug, Clone, Copy, PartialEq, Eq, Structural)]
pub enum ValidationError {
    UsernameRequired,
    UsernameTooLong { max: usize },
    UsernameInvalidChars,
    PasswordRequired,
    PasswordTooLong { max: usize },
}

/// The longest accepted username, in characters.
pub const USERNAME_MAX_LENGTH: usize = 128;

/// The longest accepted password, in characters.
pub const PASSWORD_MAX_LENGTH: usize = 1024;

/// Whether `char::is_alphanumeric` holds of a character: it has the Unicode
/// property Alphabetic or one of the general categories for numbers.
pub uninterp spec fn unicode_alphanumeric(c: char) -> bool;

/// Whether a character is a letter or a digit; in ASCII these are few.
pub open spec fn alphanumeric(c: char) -> bool {
    if c <= '\x7f' {
        ('a' <= c && c <= 'z') || ('A' <= c && c <= 'Z') || ('0' <= c && c <= '9')
    } else {
        unicode_alphanumeric(c)
    }
}

/// `char::is_alphanumeric`, a fixed predicate on characters. Of the ASCII
/// characters it holds of the letters and the digits.
#[verifier::external_body]
fn is_alphanumeric(c: char) -> (r: bool)
    ensures
        r == alphanumeric(c),
        c > '\x7f' ==> r == unicode_alphanumeric(c),
{
    c.is_alphanumeric()
}

/// The characters that a username may hold.
pub open spec fn username_char(c: char) -> bool {
    alphanumeric(c) || c == '_' || c == '-' || c == '.' || c == '@'
}

/// The verdict on a username: it is trimmed first, must not be empty, must
/// have at most [`USERNAME_MAX_LENGTH`] characters and hold accepted ones only.
pub open spec fn username_verdict(username: Seq<char>) -> Result<(), ValidationError> {
    let name = text::trimmed(username);
    if name.len() == 0 {
        Err(ValidationError::UsernameRequired)
    } else if name.len() > USERNAME_MAX_LENGTH {
        Err(ValidationError::UsernameTooLong { max: USERNAME_MAX_LENGTH })
    } else if exists|i: int| 0 <= i < name.len() && !username_char(#[trigger] name[i]) {
        Err(ValidationError::UsernameInvalidChars)
    } else {
        Ok(())
    }
}

/// Allow alphanumerics plus `_-.@`, which is what Jellyfin itself accepts.
pub fn validate_username(username: &str) -> (r: Result<(), ValidationError>)
    ensures
        r == username_verdict(username@),
{
    let name = text::trim(username);
    if name.as_str().is_empty() {
        return Err(ValidationError::UsernameRequired);
    }
    let chars = text::chars_of(name.as_str());
    if chars.len() > USERNAME_MAX_LENGTH {
        return Err(ValidationError::UsernameTooLong { max: USERNAME_MAX_LENGTH });
    }
    for i in 0..chars.len()
        invariant
            chars@ == name@,
            name@ == text::trimmed(username@),
            name@.len() > 0,
            name@.len() <= USERNAME_MAX_LENGTH,
            forall|j: int| 0 <= j < i ==> username_char(#[trigger] chars[j]),
    {
        let c = chars[i];
        if !(is_alphanumeric(c) || c == '_' || c == '-' || c == '.' || c == '@') {
            assert(!username_char(name@[i as int]));
            return Err(ValidationError::UsernameInvalidChars);
        }
    }
    Ok(())
}

/// The verdict on a password: it must not be empty and must have at most
/// [`PASSWORD_MAX_LENGTH`] characters.
pub open spec fn password_verdict(password: Seq<char>) -> Result<(), ValidationError> {
    if password.len() == 0 {
        Err(ValidationError::PasswordRequired)
    } else if password.len() > PASSWORD_MAX_LENGTH {
        Err(ValidationError::PasswordTooLong { max: PASSWORD_MAX_LENGTH })
    } else {
        Ok(())
    }
}

/// Cap password length to bound the work of hashing it; the backend server
/// enforces strength.
pub fn validate_password(password: &str) -> (r: Result<(), ValidationError>)
    ensures
        r == password_verdict(password@),
{
    if password.is_empty() {
        return Err(ValidationError::PasswordRequired);
    }
    if text::chars_of(password).len() > PASSWORD_MAX_LENGTH {
        return Err(ValidationError::PasswordTooLong { max: PASSWORD_MAX_LENGTH });
    }
    Ok(())
}

/// The message of a validation error.
pub open spec fn validation_message(e: ValidationError) -> Seq<char> {
    match e {
        ValidationError::UsernameRequired => "Username is required"@,
        ValidationError::UsernameTooLong { max } => "Username is too long (maximum "@
            + text::decimal(max as nat) + " characters)"@,
        ValidationError::UsernameInvalidChars => "Username contains invalid characters"@,
        ValidationError::PasswordRequired => "Password is required"@,
        ValidationError::PasswordTooLong { max } => "Password is too long (maximum "@
            + text::decimal(max as nat) + " characters)"@,
    }
}

impl ValidationError {
    /// The text shown to the user.
    pub fn message(&self) -> (r: String)
        ensures
            r@ == validation_message(*self),
    {
        match self {
            ValidationError::UsernameRequired => "Username is required".to_owned(),
            ValidationError::UsernameTooLong { max } => "Username is too long (maximum ".to_owned().concat(
                text::decimal_u64(*max as u64).as_str(),
            ).concat(" characters)"),
            ValidationError::UsernameInvalidChars => "Username contains invalid characters".to_owned(),
            ValidationError::PasswordRequired => "Password is required".to_owned(),
            ValidationError::PasswordTooLong { max } => "Password is too long (maximum ".to_owned().concat(
                text::decimal_u64(*max as u64).as_str(),
            ).concat(" characters)"),
        }
    }
}

/// Surrounding white space never changes the verdict on a username: the
/// verdict is that on the trimmed name.
pub proof fn username_verdict_ignores_surrounding_space(username: Seq<char>)
    ensures
        username_verdict(text::trimmed(username)) == username_verdict(username),
{
    text::trimmed_is_trimmed(username);
}

/// A username is accepted exactly where it has, white space around it aside,
/// from 1 up to 128 characters, each a letter, a digit, or one of `_`, `-`, `.`
/// and `@`. It is said to be missing where nothing is left of it, too long
/// where it is, and to hold invalid characters otherwise.
pub proof fn accepted_usernames(username: Seq<char>)
    ensures
        ({
            let name = text::trimmed(username);
            let plain = forall|i: int|
                0 <= i < name.len() ==> alphanumeric(#[trigger] name[i]) || name[i] == '_' || name[i]
                    == '-' || name[i] == '.' || name[i] == '@';
            &&& username_verdict(username) is Ok <==> 1 <= name.len() <= 128 && plain
            &&& username_verdict(username) == Err::<(), _>(ValidationError::UsernameRequired)
                <==> name.len() == 0
            &&& username_verdict(username) == Err::<(), _>(
                ValidationError::UsernameTooLong { max: 128 },
            ) <==> name.len() > 128
            &&& username_verdict(username) == Err::<(), _>(ValidationError::UsernameInvalidChars)
                <==> 1 <= name.len() <= 128 && !plain
        }),
{
    let name = text::trimmed(username);
    if exists|i: int| 0 <= i < name.len() && !username_char(#[trigger] name[i]) {
        let i = choose|i: int| 0 <= i < name.len() && !username_char(#[trigger] name[i]);
        assert(!(alphanumeric(name[i]) || name[i] == '_' || name[i] == '-' || name[i] == '.'
            || name[i] == '@'));
    } else {
        assert forall|i: int| 0 <= i < name.len() implies alphanumeric(#[trigger] name[i])
            || name[i] == '_' || name[i] == '-' || name[i] == '.' || name[i] == '@' by {
            assert(username_char(name[i]));
        }
    }
}

/// A password is accepted exactly where it has from 1 up to 1024 characters,
/// whatever they are; it is said to be missing or too long otherwise.
pub proof fn accepted_passwords(password: Seq<char>)
    ensures
        password_verdict(password) is Ok <==> 1 <= password.len() <= 1024,
        password_verdict(password) == Err::<(), _>(ValidationError::PasswordRequired)
            <==> password.len() == 0,
        password_verdict(password) == Err::<(), _>(ValidationError::PasswordTooLong { max: 1024 })
            <==> password.len() > 1024,
{
}

/// Of the ASCII characters those from a to z, from A to Z and from 0 to 9 are
/// letters and digits.
pub proof fn ascii_letters_and_digits(c: char)
    requires
        c as int <= 127,
    ensures
        alphanumeric(c) <==> 97 <= c as int <= 122 || 65 <= c as int <= 90 || 48 <= c as int <= 57,
{
}

}
