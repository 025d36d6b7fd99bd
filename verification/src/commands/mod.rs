//! Sealing a secret to recipients and opening it again.

pub mod decrypt;
pub mod encrypt;
