use vstd::prelude::*;

use vstd::string::*;

use argon2::password_hash::{PasswordHash, PasswordHasher, PasswordVerifier, SaltString};
use argon2::Argon2;

verus! {

pub const USERNAME_MIN_LEN: usize = 3;

pub const USERNAME_MAX_LEN: usize = 20;

pub const PASSWORD_MIN_LEN: usize = 6;

pub const PASSWORD_MAX_LEN: usize = 100;

pub const EMAIL_MAX_LEN: usize = 100;

/// Why a username, password or email was refused.
#[derive(Clone, Copy, Debug, PartialEq, Eq, Structural)]
pub enum CredentialError {
    UsernameTooShort,
    UsernameTooLong,
    UsernameInvalidCharacter,
    PasswordTooShort,
    PasswordTooLong,
    PasswordMissingDigit,
    PasswordMissingLetter,
    EmailTooLong,
    EmailMalformed,
}

impl CredentialError {
    pub open spec fn spec_message(self) -> &'static str {
        match self {
            CredentialError::UsernameTooShort => "username must be at least 3 characters long",
            CredentialError::UsernameTooLong => "username must be at most 20 characters long",
            CredentialError::UsernameInvalidCharacter => "username may only contain lowercase letters, digits and underscores",
            CredentialError::PasswordTooShort => "password must be at least 6 characters long",
            CredentialError::PasswordTooLong => "password must be at most 100 characters long",
            CredentialError::PasswordMissingDigit => "password must contain a digit",
            CredentialError::PasswordMissingLetter => "password must contain a letter",
            CredentialError::EmailTooLong => "email must be at most 100 characters long",
            CredentialError::EmailMalformed => "email must have the form name@domain",
        }
    }

    /// A sentence for the user that names the rule broken.
    pub fn message(&self) -> (r: &'static str)
        ensures
            r == self.spec_message(),
    {
        match self {
            CredentialError::UsernameTooShort => "username must be at least 3 characters long",
            CredentialError::UsernameTooLong => "username must be at most 20 characters long",
            CredentialError::UsernameInvalidCharacter => "username may only contain lowercase letters, digits and underscores",
            CredentialError::PasswordTooShort => "password must be at least 6 characters long",
            CredentialError::PasswordTooLong => "password must be at most 100 characters long",
            CredentialError::PasswordMissingDigit => "password must contain a digit",
            CredentialError::PasswordMissingLetter => "password must contain a letter",
            CredentialError::EmailTooLong => "email must be at most 100 characters long",
            CredentialError::EmailMalformed => "email must have the form name@domain",
        }
    }
}

pub open spec fn is_username_char(c: char) -> bool {
    ('a' <= c && c <= 'z') || ('0' <= c && c <= '9') || c == '_'
}

pub open spec fn is_digit(c: char) -> bool {
    '0' <= c && c <= '9'
}

pub open spec fn is_letter(c: char) -> bool {
    ('a' <= c && c <= 'z') || ('A' <= c && c <= 'Z')
}

/// The username rules: a length range, then lowercase letters, digits and
/// underscores only.
pub open spec fn username_check(s: Seq<char>) -> Result<(), CredentialError> {
    if s.len() < USERNAME_MIN_LEN {
        Err(CredentialError::UsernameTooShort)
    } else if s.len() > USERNAME_MAX_LEN {
        Err(CredentialError::UsernameTooLong)
    } else if exists|i: int| 0 <= i < s.len() && !is_username_char(#[trigger] s[i]) {
        Err(CredentialError::UsernameInvalidCharacter)
    } else {
        Ok(())
    }
}

/// The password rules: a length range, at least one digit and one letter.
pub open spec fn password_check(s: Seq<char>) -> Result<(), CredentialError> {
    if s.len() < PASSWORD_MIN_LEN {
        Err(CredentialError::PasswordTooShort)
    } else if s.len() > PASSWORD_MAX_LEN {
        Err(CredentialError::PasswordTooLong)
    } else if !(exists|i: int| 0 <= i < s.len() && is_digit(#[trigger] s[i])) {
        Err(CredentialError::PasswordMissingDigit)
    } else if !(exists|i: int| 0 <= i < s.len() && is_letter(#[trigger] s[i])) {
        Err(CredentialError::PasswordMissingLetter)
    } else {
        Ok(())
    }
}

/// An email has exactly one `@`, with something on either side of it.
pub open spec fn email_shape(s: Seq<char>) -> bool {
    exists|p: int|
        0 < p < s.len() - 1 && s[p] == '@' && (forall|q: int| 0 <= q < s.len() && q != p ==> #[trigger] s[q] != '@')
}

/// The email rules: a length bound and the shape `name@domain`.
pub open spec fn email_check(s: Seq<char>) -> Result<(), CredentialError> {
    if s.len() > EMAIL_MAX_LEN {
        Err(CredentialError::EmailTooLong)
    } else if !email_shape(s) {
        Err(CredentialError::EmailMalformed)
    } else {
        Ok(())
    }
}

pub fn validate_username(s: &str) -> (r: Result<(), CredentialError>)
    ensures
        r == username_check(s@),
{
    let n = s.unicode_len();
    if n < USERNAME_MIN_LEN {
        return Err(CredentialError::UsernameTooShort);
    }
    if n > USERNAME_MAX_LEN {
        return Err(CredentialError::UsernameTooLong);
    }
    let mut i: usize = 0;
    while i < n
        invariant
            0 <= i <= n,
            n == s@.len(),
            USERNAME_MIN_LEN <= n <= USERNAME_MAX_LEN,
            forall|k: int| 0 <= k < i ==> is_username_char(#[trigger] s@[k]),
        decreases n - i,
    {
        let c = s.get_char(i);
        if !(('a' <= c && c <= 'z') || ('0' <= c && c <= '9') || c == '_') {
            assert(!is_username_char(s@[i as int]));
            return Err(CredentialError::UsernameInvalidCharacter);
        }
        i = i + 1;
    }
    Ok(())
}

pub fn validate_password(s: &str) -> (r: Result<(), CredentialError>)
    ensures
        r == password_check(s@),
{
    let n = s.unicode_len();
    if n < PASSWORD_MIN_LEN {
        return Err(CredentialError::PasswordTooShort);
    }
    if n > PASSWORD_MAX_LEN {
        return Err(CredentialError::PasswordTooLong);
    }
    let mut digit = false;
    let mut letter = false;
    let mut i: usize = 0;
    while i < n
        invariant
            0 <= i <= n,
            n == s@.len(),
            digit <==> exists|k: int| 0 <= k < i && is_digit(#[trigger] s@[k]),
            letter <==> exists|k: int| 0 <= k < i && is_letter(#[trigger] s@[k]),
        decreases n - i,
    {
        let c = s.get_char(i);
        if '0' <= c && c <= '9' {
            digit = true;
        }
        if ('a' <= c && c <= 'z') || ('A' <= c && c <= 'Z') {
            letter = true;
        }
        i = i + 1;
    }
    if !digit {
        return Err(CredentialError::PasswordMissingDigit);
    }
    if !letter {
        return Err(CredentialError::PasswordMissingLetter);
    }
    Ok(())
}

pub fn validate_email(s: &str) -> (r: Result<(), CredentialError>)
    ensures
        r == email_check(s@),
{
    let n = s.unicode_len();
    if n > EMAIL_MAX_LEN {
        return Err(CredentialError::EmailTooLong);
    }
    let mut at: Option<usize> = None;
    let mut i: usize = 0;
    while i < n
        invariant
            0 <= i <= n,
            n == s@.len(),
            n <= EMAIL_MAX_LEN,
            at is None ==> forall|k: int| 0 <= k < i ==> #[trigger] s@[k] != '@',
            at matches Some(p) ==> p < i && s@[p as int] == '@' && forall|k: int|
                0 <= k < i && k != p ==> #[trigger] s@[k] != '@',
        decreases n - i,
    {
        let c = s.get_char(i);
        if c == '@' {
            match at {
                Some(p) => {
                    proof {
                        assert forall|p2: int|
                            0 < p2 < s@.len() - 1 && s@[p2] == '@' implies !(forall|q: int|
                            0 <= q < s@.len() && q != p2 ==> #[trigger] s@[q] != '@') by {
                            if p2 != p {
                                assert(s@[p as int] == '@');
                            } else {
                                assert(s@[i as int] == '@');
                            }
                        }
                    }
                    return Err(CredentialError::EmailMalformed);
                },
                None => {
                    at = Some(i);
                },
            }
        }
        i = i + 1;
    }
    match at {
        Some(p) => {
            if p == 0 || p + 1 >= n {
                proof {
                    assert forall|p2: int|
                        0 < p2 < s@.len() - 1 && s@[p2] == '@' implies !(forall|q: int|
                        0 <= q < s@.len() && q != p2 ==> #[trigger] s@[q] != '@') by {
                        assert(p2 != p);
                        assert(s@[p as int] == '@');
                    }
                }
                Err(CredentialError::EmailMalformed)
            } else {
                assert(s@[p as int] == '@');
                Ok(())
            }
        },
        None => Err(CredentialError::EmailMalformed),
    }
}

/// Lowercase form of a string, as `str::to_lowercase` gives it.
pub uninterp spec fn lower_of(s: Seq<char>) -> Seq<char>;

/// Relies on `str::to_lowercase`: the result depends on the characters alone.
#[verifier::external_body]
pub(crate) fn lowercase(s: &str) -> (r: String)
    ensures
        r@ == lower_of(s@),
{
    s.to_lowercase()
}

/// Whether `password` matches the PHC-format argon2 hash `hash`.
pub uninterp spec fn password_matches(hash: Seq<char>, password: Seq<char>) -> bool;

/// Relies on argon2's `verify_password` (of `PasswordVerifier`), after
/// `PasswordHash::new` parses the stored hash: it recomputes the hash with the
/// stored salt and parameters and compares.
#[verifier::external_body]
pub(crate) fn verify_password(hash: &str, password: &str) -> (r: bool)
    ensures
        r == password_matches(hash@, password@),
{
    match PasswordHash::new(hash) {
        Ok(parsed) => Argon2::default().verify_password(password.as_bytes(), &parsed).is_ok(),
        Err(_) => false,
    }
}

/// Shortest salt, in bytes, that argon2 accepts.
pub const SALT_MIN_LEN: usize = 8;

/// Longest salt, in bytes, whose base64 form fits a PHC salt field.
pub const SALT_MAX_LEN: usize = 48;

/// How a PHC string of argon2's default algorithm and version begins.
pub const ARGON2ID_PREFIX: &'static str = "$argon2id$v=19$";

/// Relies on argon2's `hash_password` (of `PasswordHasher`), with default
/// parameters and the salt encoded by `SaltString::encode_b64`: for a salt of
/// 8 to 48 bytes both succeed, and the PHC string yielded, which begins with
/// the Argon2id algorithm and version 19, is one that `verify_password`
/// accepts for the same password.
#[verifier::external_body]
pub(crate) fn hash_password(password: &str, salt: &[u8]) -> (r: String)
    requires
        SALT_MIN_LEN <= salt@.len() <= SALT_MAX_LEN,
    ensures
        password_matches(r@, password@),
        r@.len() >= 15 && r@.subrange(0, 15) == ARGON2ID_PREFIX@,
{
    let salt = SaltString::encode_b64(salt).expect("a salt of 8 to 48 bytes encodes");
    let hash = Argon2::default().hash_password(password.as_bytes(), &salt).expect("argon2 accepts such a salt");
    hash.to_string()
}

} // verus!
