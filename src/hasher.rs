//! The argon2 configuration of registrations and the hashing of passwords.

use crate::encoded::{
    encoded_hash, lemma_encoded_hash_determines, version_number, Algorithm, AlgorithmVersion,
};
use rand::RngCore;
use vstd::prelude::*;
use vstd::string::StringSliceAdditionalSpecFns;

verus! {

/// The error type of rust-argon2, carried through opaquely.
#[verifier::external_type_specification]
#[verifier::external_body]
pub struct ExArgon2Error(argon2::Error);

/// Length in bytes of the salt drawn for each password.
pub const SALT_LENGTH: usize = 16;

/// Parameters of an argon2 hash.
#[derive(Clone, Copy, Debug, PartialEq, Eq, Structural)]
pub struct HashConfig {
    pub variant: Algorithm,
    pub version: AlgorithmVersion,
    /// Memory cost, in KiB.
    pub mem_cost: u32,
    /// Number of passes over memory.
    pub time_cost: u32,
    /// Degree of parallelism.
    pub lanes: u32,
    /// Number of threads the computation may use.
    pub threads: u32,
    /// Length in bytes of the derived key.
    pub hash_length: u32,
}

/// The derived key that argon2 computes for a password, a salt and parameters.
pub uninterp spec fn argon2_key(pwd: Seq<u8>, salt: Seq<u8>, config: HashConfig) -> Seq<u8>;

/// The encoded hash of `pwd` with `salt` under `config`.
pub open spec fn encoding_of(pwd: Seq<u8>, salt: Seq<u8>, config: HashConfig) -> Seq<char> {
    encoded_hash(
        config.variant,
        config.version,
        config.mem_cost as nat,
        config.time_cost as nat,
        config.lanes as nat,
        salt,
        argon2_key(pwd, salt, config),
    )
}

/// Inputs that argon2 accepts on every target: at least one lane and at most
/// 2^24 - 1, at least eight KiB of memory per lane and at most 2 GiB, at least
/// one pass, a key of at least four bytes, a salt of at least eight bytes, and
/// lengths that fit in 32 bits.
pub open spec fn accepted(config: HashConfig, pwd_len: nat, salt_len: nat) -> bool {
    &&& 1 <= config.lanes <= 0x00FF_FFFF
    &&& 8 <= config.mem_cost
    &&& 8 * config.lanes <= config.mem_cost
    &&& config.mem_cost <= 0x0020_0000
    &&& 1 <= config.time_cost
    &&& 4 <= config.hash_length
    &&& pwd_len <= 0xFFFF_FFFF
    &&& 8 <= salt_len <= 0xFFFF_FFFF
}

/// What argon2 requires of its inputs on any target; on 64-bit targets the
/// memory cost may exceed the bound of `accepted`.
pub open spec fn well_formed(config: HashConfig, pwd_len: nat, salt_len: nat) -> bool {
    &&& 1 <= config.lanes <= 0x00FF_FFFF
    &&& 8 <= config.mem_cost
    &&& 8 * config.lanes <= config.mem_cost
    &&& 1 <= config.time_cost
    &&& 4 <= config.hash_length
    &&& pwd_len <= 0xFFFF_FFFF
    &&& 8 <= salt_len <= 0xFFFF_FFFF
}

/// The failures of hashing.
#[derive(Clone, Copy, Debug, PartialEq, Eq, Structural)]
pub enum HashError {
    /// argon2 refused the parameters, the password or the salt.
    Rejected,
}

/// The configuration that registrations use: Argon2id, version 0x13, 64 MiB of
/// memory, three passes, two lanes computed in parallel, a 32-byte key.
pub fn registration_config() -> (c: HashConfig)
    ensures
        c.variant == Algorithm::Argon2id,
        c.version == AlgorithmVersion::Version13,
        c.mem_cost == 64 * 1024,
        c.time_cost == 3,
        c.lanes == 2,
        c.threads == 2,
        c.hash_length == 32,
{
    HashConfig {
        variant: Algorithm::Argon2id,
        version: AlgorithmVersion::Version13,
        mem_cost: 64 * 1024,
        time_cost: 3,
        lanes: 2,
        threads: 2,
        hash_length: 32,
    }
}

/// Relies on argon2::hash_encoded (rust-argon2): it validates the parameters in
/// `Context::new`, then formats the derived key with `encoding::encode_string`.
/// `Variant::from_u32` and `Version::from_u32` accept the codes 0 to 2 and
/// 0x10, 0x13 that `Algorithm::code` and `AlgorithmVersion::code` give.
#[verifier::external_body]
fn argon2_hash_encoded(
    pwd: &[u8],
    salt: &[u8],
    config: &HashConfig,
    variant: u32,
    version: u32,
) -> (r: Result<String, argon2::Error>)
    requires
        variant == config.variant.spec_code(),
        version == version_number(config.version),
    ensures
        accepted(*config, pwd@.len(), salt@.len()) ==> r is Ok,
        r is Ok ==> well_formed(*config, pwd@.len(), salt@.len()),
        r matches Ok(s) ==> s@ == encoded_hash(
            config.variant,
            config.version,
            config.mem_cost as nat,
            config.time_cost as nat,
            config.lanes as nat,
            salt@,
            argon2_key(pwd@, salt@, *config),
        ),
{
    let c = argon2::Config {
        variant: argon2::Variant::from_u32(variant)?,
        version: argon2::Version::from_u32(version)?,
        mem_cost: config.mem_cost,
        time_cost: config.time_cost,
        lanes: config.lanes,
        thread_mode: argon2::ThreadMode::from_threads(config.threads),
        secret: &[],
        ad: &[],
        hash_length: config.hash_length,
    };
    argon2::hash_encoded(pwd, salt, &c)
}

/// Relies on rand's `thread_rng().fill_bytes`, a cryptographically secure
/// generator: it overwrites the buffer in place and keeps its length.
#[verifier::external_body]
fn fill_random(buf: &mut Vec<u8>)
    ensures
        final(buf)@.len() == old(buf)@.len(),
{
    rand::thread_rng().fill_bytes(buf.as_mut_slice());
}

/// Hashes `password` with the given salt under `config` and returns the encoded
/// hash. It fails exactly when argon2 refuses the inputs, which never happens
/// for inputs that `accepted` admits.
pub fn hash_with_salt(password: &[u8], salt: &[u8], config: &HashConfig) -> (r: Result<
    String,
    HashError,
>)
    ensures
        accepted(*config, password@.len(), salt@.len()) ==> r is Ok,
        r is Ok ==> well_formed(*config, password@.len(), salt@.len()),
        r matches Ok(s) ==> s@ == encoding_of(password@, salt@, *config),
        r matches Err(e) ==> e == HashError::Rejected,
{
    let variant = config.variant.code();
    let version = config.version.code();
    match argon2_hash_encoded(password, salt, config, variant, version) {
        Ok(s) => Ok(s),
        Err(_) => Err(HashError::Rejected),
    }
}

/// Hashes `password` under `config` with a fresh random salt of
/// `SALT_LENGTH` bytes.
pub fn generate_from_password(password: &str, config: &HashConfig) -> (r: Result<
    String,
    HashError,
>)
    ensures
        accepted(*config, password.spec_bytes().len(), SALT_LENGTH as nat) ==> r is Ok,
        r is Ok ==> well_formed(*config, password.spec_bytes().len(), SALT_LENGTH as nat),
        r matches Ok(s) ==> exists|salt: Seq<u8>|
            salt.len() == SALT_LENGTH && s@ == #[trigger] encoding_of(
                password.spec_bytes(),
                salt,
                *config,
            ),
        r matches Err(e) ==> e == HashError::Rejected,
{
    let mut salt: Vec<u8> = vec![0u8; SALT_LENGTH];
    fill_random(&mut salt);
    hash_with_salt(password.as_bytes(), salt.as_slice(), config)
}

/// Two hashes of one password under one configuration, made with different
/// salts of one length, are different encoded hashes.
pub proof fn lemma_distinct_salts_distinct_hashes(
    pwd: Seq<u8>,
    salt1: Seq<u8>,
    salt2: Seq<u8>,
    config: HashConfig,
)
    requires
        salt1.len() == salt2.len(),
        salt1 != salt2,
    ensures
        encoding_of(pwd, salt1, config) != encoding_of(pwd, salt2, config),
{
    if encoding_of(pwd, salt1, config) == encoding_of(pwd, salt2, config) {
        lemma_encoded_hash_determines(
            config.variant,
            config.version,
            config.mem_cost as nat,
            config.time_cost as nat,
            config.lanes as nat,
            salt1,
            argon2_key(pwd, salt1, config),
            config.variant,
            config.version,
            config.mem_cost as nat,
            config.time_cost as nat,
            config.lanes as nat,
            salt2,
            argon2_key(pwd, salt2, config),
        );
    }
}

/// An encoded hash reveals how it was made: two encoded hashes made with salts
/// of `SALT_LENGTH` bytes are equal only if they name the same variant, version,
/// memory cost, time cost and lanes, and hold the same salt.
pub proof fn lemma_encoding_reveals_parameters(
    pwd1: Seq<u8>,
    salt1: Seq<u8>,
    config1: HashConfig,
    pwd2: Seq<u8>,
    salt2: Seq<u8>,
    config2: HashConfig,
)
    requires
        salt1.len() == SALT_LENGTH,
        salt2.len() == SALT_LENGTH,
        encoding_of(pwd1, salt1, config1) == encoding_of(pwd2, salt2, config2),
    ensures
        config1.variant == config2.variant,
        config1.version == config2.version,
        config1.mem_cost == config2.mem_cost,
        config1.time_cost == config2.time_cost,
        config1.lanes == config2.lanes,
        salt1 == salt2,
{
    lemma_encoded_hash_determines(
        config1.variant,
        config1.version,
        config1.mem_cost as nat,
        config1.time_cost as nat,
        config1.lanes as nat,
        salt1,
        argon2_key(pwd1, salt1, config1),
        config2.variant,
        config2.version,
        config2.mem_cost as nat,
        config2.time_cost as nat,
        config2.lanes as nat,
        salt2,
        argon2_key(pwd2, salt2, config2),
    );
}

} // verus!
