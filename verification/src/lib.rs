//! Synthetic, structurally valid identification codes for EU test fixtures:
//! International Bank Account Numbers and national personal identification
//! numbers. Every code that is generated here passes the validation that is
//! offered here, and that fact is part of each function's contract.

pub mod batch;
pub mod checksum;
pub mod iban;
pub mod personal_id;
pub mod random;
pub mod text;
