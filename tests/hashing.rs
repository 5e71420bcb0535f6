use user_registry::encoded::{Algorithm, AlgorithmVersion};
use user_registry::hasher::{
    generate_from_password, hash_with_salt, registration_config, HashConfig, HashError,
    SALT_LENGTH,
};

fn small_config(variant: Algorithm, lanes: u32) -> HashConfig {
    HashConfig {
        variant,
        version: AlgorithmVersion::Version13,
        mem_cost: 256,
        time_cost: 2,
        lanes,
        threads: lanes,
        hash_length: 32,
    }
}

#[test]
fn registration_config_has_fixed_parameters() {
    let c = registration_config();
    assert_eq!(c.variant, Algorithm::Argon2id);
    assert_eq!(c.version, AlgorithmVersion::Version13);
    assert_eq!(c.mem_cost, 65536);
    assert_eq!(c.time_cost, 3);
    assert_eq!(c.lanes, 2);
    assert_eq!(c.hash_length, 32);
    assert_eq!(SALT_LENGTH, 16);
}

#[test]
fn known_vector_one_lane() {
    let r = hash_with_salt(b"password", b"somesalt", &small_config(Algorithm::Argon2id, 1));
    assert_eq!(
        r.unwrap(),
        "$argon2id$v=19$m=256,t=2,p=1$c29tZXNhbHQ$nf65EOgLrQMR/uIPnA4rEsF5h7TKyQwu9U1bMCHGi/4"
    );
}

#[test]
fn known_vector_two_lanes() {
    let r = hash_with_salt(b"password", b"somesalt", &small_config(Algorithm::Argon2id, 2));
    assert_eq!(
        r.unwrap(),
        "$argon2id$v=19$m=256,t=2,p=2$c29tZXNhbHQ$bQk8UB/VmZZF4Oo79iDXuL5/0ttZwg2f/5U52iv1cDc"
    );
}

#[test]
fn encoded_hash_differs_from_password() {
    let r = hash_with_salt(b"password", b"somesalt", &small_config(Algorithm::Argon2i, 1)).unwrap();
    assert_ne!(r.as_bytes(), b"password");
    assert!(r.starts_with("$argon2i$v=19$m=256,t=2,p=1$c29tZXNhbHQ$"));
}

#[test]
fn short_salt_is_rejected() {
    let r = hash_with_salt(b"password", b"short", &small_config(Algorithm::Argon2id, 1));
    assert_eq!(r, Err(HashError::Rejected));
}

#[test]
fn too_little_memory_is_rejected() {
    let mut c = small_config(Algorithm::Argon2id, 4);
    c.mem_cost = 16;
    let r = hash_with_salt(b"password", b"somesalt", &c);
    assert_eq!(r, Err(HashError::Rejected));
}

#[test]
fn zero_time_cost_is_rejected() {
    let mut c = small_config(Algorithm::Argon2d, 1);
    c.time_cost = 0;
    assert_eq!(hash_with_salt(b"pw", b"somesalt", &c), Err(HashError::Rejected));
}

#[test]
fn encoding_reveals_parameters_and_salt() {
    let r = generate_from_password("secret", &small_config(Algorithm::Argon2id, 2)).unwrap();
    let fields: Vec<&str> = r.split('$').collect();
    assert_eq!(fields.len(), 6);
    assert_eq!(fields[0], "");
    assert_eq!(fields[1], "argon2id");
    assert_eq!(fields[2], "v=19");
    assert_eq!(fields[3], "m=256,t=2,p=2");
    // sixteen bytes of salt are 22 base64 characters without padding
    assert_eq!(fields[4].len(), 22);
    assert_eq!(fields[5].len(), 43);
}

#[test]
fn same_password_twice_gives_different_hashes_that_both_verify() {
    let c = small_config(Algorithm::Argon2id, 1);
    let a = generate_from_password("hunter2", &c).unwrap();
    let b = generate_from_password("hunter2", &c).unwrap();
    assert_ne!(a, b);
    assert!(argon2::verify_encoded(&a, b"hunter2").unwrap());
    assert!(argon2::verify_encoded(&b, b"hunter2").unwrap());
    assert!(!argon2::verify_encoded(&a, b"hunter3").unwrap());
}

#[test]
fn distinct_salts_give_distinct_hashes() {
    let c = small_config(Algorithm::Argon2id, 1);
    let a = hash_with_salt(b"pw", b"saltsalt", &c).unwrap();
    let b = hash_with_salt(b"pw", b"saltsalu", &c).unwrap();
    assert_ne!(a, b);
}

#[test]
fn empty_password_is_hashed() {
    let c = small_config(Algorithm::Argon2id, 1);
    let a = generate_from_password("", &c).unwrap();
    assert!(argon2::verify_encoded(&a, b"").unwrap());
}
