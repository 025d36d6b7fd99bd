//! Sealed values inside plain documents.
//!
//! A secret is sealed into an envelope, a short text that can stand in a
//! YAML document where the secret would stand, and is opened again by
//! those it was sealed for: the holders of the recipients' keys, which a
//! key store tracks by label and domain, or whoever knows the password.
//!
//! * [`vault`] holds the envelope and its text, [`culper_drop`] the
//!   four-field form of the text.
//! * [`aes`] seals and opens with a password.
//! * [`store`] is the key store, [`admin_service`] its view for a server's
//!   admins.
//! * [`commands`] gathers the recipients of a message, builds the message,
//!   and decides which secret key opens one.
//! * [`yaml`] walks a document and replaces the leaves that are envelopes.
//! * [`config`], [`gpg`] and [`server`] hold what the command line program
//!   decides: the configuration, the calls of `gpg` and what its output
//!   says, and the registration of a server's first admin.

pub mod admin_service;
pub mod aes;
pub mod commands;
pub mod config;
pub mod culper_drop;
pub mod encoding;
pub mod errors;
pub mod gpg;
pub mod matching;
pub mod paths;
pub mod random;
pub mod server;
pub mod store;
pub mod text;
pub mod vault;
pub mod yaml;
