use user_registry::metrics::{
    generate_hash_buckets_ms, recorded_samples, save_user_buckets_ms, GENERATE_HASH_NAME,
    SAVE_USER_NAME,
};
use user_registry::registration::{prepare_user, reply_for, RegistrationError, INSERT_USER};

#[test]
fn missing_request_is_malformed_input() {
    assert!(matches!(prepare_user(None), Err(RegistrationError::MalformedInput)));
}

#[test]
fn malformed_input_gets_client_error() {
    let r = reply_for(Err(RegistrationError::MalformedInput));
    assert_eq!(r.status, 400);
    assert_eq!(r.body, "Malformed registration request.");
}

#[test]
fn success_gets_created() {
    let r = reply_for(Ok(()));
    assert_eq!(r.status, 201);
    assert_eq!(r.body, "User created.");
}

#[test]
fn hash_failure_gets_server_error() {
    let r = reply_for(Err(RegistrationError::HashFailed));
    assert_eq!(r.status, 500);
    assert_eq!(r.body, "Could not hash the password.");
}

#[test]
fn save_failure_gets_server_error() {
    let r = reply_for(Err(RegistrationError::SaveFailed));
    assert_eq!(r.status, 500);
    assert_eq!(r.body, "Could not save the user.");
}

#[test]
fn insert_statement_has_two_parameters() {
    assert_eq!(INSERT_USER, "INSERT INTO rust_users(email, password_hash) VALUES($1, $2)");
}

#[test]
fn hash_buckets_span_fifty_to_one_fifty_ms() {
    assert_eq!(
        generate_hash_buckets_ms(),
        vec![50, 60, 70, 80, 90, 100, 110, 120, 130, 140, 150]
    );
    assert_eq!(GENERATE_HASH_NAME, "generate_hash_duration_seconds");
}

#[test]
fn save_buckets_span_ten_to_one_hundred_ms() {
    assert_eq!(save_user_buckets_ms(), vec![10, 20, 30, 40, 50, 60, 70, 80, 90, 100]);
    assert_eq!(SAVE_USER_NAME, "save_user_duration_seconds");
}

#[test]
fn successful_registration_records_both_histograms() {
    assert_eq!(recorded_samples(Ok(())), (true, true));
}

#[test]
fn failed_save_records_only_hashing() {
    assert_eq!(recorded_samples(Err(RegistrationError::SaveFailed)), (true, false));
}

#[test]
fn malformed_or_unhashed_records_nothing() {
    assert_eq!(recorded_samples(Err(RegistrationError::MalformedInput)), (false, false));
    assert_eq!(recorded_samples(Err(RegistrationError::HashFailed)), (false, false));
}

#[test]
fn n_successful_registrations_add_n_samples_each() {
    let mut hash = 0u64;
    let mut save = 0u64;
    for _ in 0..5 {
        let (h, s) = recorded_samples(Ok(()));
        hash += h as u64;
        save += s as u64;
    }
    assert_eq!((hash, save), (5, 5));
}
