//! The decisions of the registration endpoint: what is stored for a request,
//! and which reply each outcome gets.

use crate::encoded::{Algorithm, AlgorithmVersion};
use crate::hasher::{
    accepted, encoding_of, generate_from_password, registration_config, HashConfig, HashError,
    SALT_LENGTH,
};
use vstd::prelude::*;
use vstd::utf8::encode_utf8;

verus! {

/// The statement that stores one user; its parameters are the email and the
/// encoded hash.
pub const INSERT_USER: &'static str = "INSERT INTO rust_users(email, password_hash) VALUES($1, $2)";

/// A registration request as the client sent it.
pub struct NewUser {
    pub email: String,
    pub password: String,
}

/// The row stored for a registered user.
pub struct StoredUser {
    pub email: String,
    pub password_hash: String,
}

/// Why a registration failed.
#[derive(Clone, Copy, Debug, PartialEq, Eq, Structural)]
pub enum RegistrationError {
    /// The body was not a JSON object with string fields `email` and `password`.
    MalformedInput,
    /// Hashing the password failed.
    HashFailed,
    /// Storing the user failed.
    SaveFailed,
}

/// An HTTP reply: status code and plain-text body.
pub struct Reply {
    pub status: u16,
    pub body: String,
}

/// The parameters of `registration_config`.
pub open spec fn is_registration_config(c: HashConfig) -> bool {
    &&& c.variant == Algorithm::Argon2id
    &&& c.version == AlgorithmVersion::Version13
    &&& c.mem_cost == 64 * 1024
    &&& c.time_cost == 3
    &&& c.lanes == 2
    &&& c.threads == 2
    &&& c.hash_length == 32
}

/// Turns a request into the row to store. A request that could not be read
/// (`None`) is malformed input; otherwise the password is hashed with the
/// registration parameters and a fresh salt, which fails only for a password
/// longer than 2^32 - 1 bytes.
pub fn prepare_user(request: Option<NewUser>) -> (r: Result<StoredUser, RegistrationError>)
    ensures
        request is None ==> r == Err::<StoredUser, _>(RegistrationError::MalformedInput),
        request matches Some(u) ==> {
            &&& (encode_utf8(u.password@).len() <= 0xFFFF_FFFF ==> r is Ok)
            &&& (r is Err ==> r == Err::<StoredUser, _>(RegistrationError::HashFailed))
            &&& (r matches Ok(s) ==> {
                &&& s.email@ == u.email@
                &&& exists|c: HashConfig, salt: Seq<u8>|
                    is_registration_config(c) && salt.len() == SALT_LENGTH
                        && s.password_hash@ == #[trigger] encoding_of(
                        encode_utf8(u.password@),
                        salt,
                        c,
                    )
            })
        },
{
    match request {
        None => Err(RegistrationError::MalformedInput),
        Some(user) => {
            let config = registration_config();
            match generate_from_password(user.password.as_str(), &config) {
                Ok(hash) => Ok(StoredUser { email: user.email, password_hash: hash }),
                Err(HashError::Rejected) => Err(RegistrationError::HashFailed),
            }
        },
    }
}

/// The status code that an outcome gets: 201 for a stored user, 400 for
/// malformed input, 500 when hashing or storing failed.
pub open spec fn status_of(outcome: Result<(), RegistrationError>) -> u16 {
    match outcome {
        Ok(()) => 201,
        Err(RegistrationError::MalformedInput) => 400,
        Err(_) => 500,
    }
}

/// The reply to a registration: "User created." with 201 on success, a short
/// explanation with 400 or 500 otherwise. No outcome stops the server.
pub fn reply_for(outcome: Result<(), RegistrationError>) -> (r: Reply)
    ensures
        r.status == status_of(outcome),
        outcome is Ok ==> r.body@ == "User created."@,
        outcome == Err::<(), _>(RegistrationError::MalformedInput) ==> r.body@
            == "Malformed registration request."@,
        outcome == Err::<(), _>(RegistrationError::HashFailed) ==> r.body@
            == "Could not hash the password."@,
        outcome == Err::<(), _>(RegistrationError::SaveFailed) ==> r.body@
            == "Could not save the user."@,
{
    match outcome {
        Ok(()) => Reply { status: 201, body: String::from_str("User created.") },
        Err(RegistrationError::MalformedInput) => Reply {
            status: 400,
            body: String::from_str("Malformed registration request."),
        },
        Err(RegistrationError::HashFailed) => Reply {
            status: 500,
            body: String::from_str("Could not hash the password."),
        },
        Err(RegistrationError::SaveFailed) => Reply {
            status: 500,
            body: String::from_str("Could not save the user."),
        },
    }
}

} // verus!
