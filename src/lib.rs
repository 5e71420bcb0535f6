//! Password hashing and request handling for a small user-registration service.
//!
//! The library fixes the argon2 parameters that registrations use, describes the
//! self-describing encoded hash that argon2 produces, and decides which reply a
//! registration request gets.

pub mod encoded;
pub mod hasher;
pub mod metrics;
pub mod registration;
