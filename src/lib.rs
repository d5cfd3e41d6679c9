//! Keyset-based key management and authenticated encryption.
//!
//! Applications hold keysets behind a [`handle::Handle`] and never touch raw
//! keys: [`manager::Manager`] changes a keyset while keeping its invariants
//! ([`keyset`]), the handle gates export and import and builds primitive
//! sets, and [`aead::WrappedAead`] dispatches ciphertexts to keys by their
//! output prefix. Descriptors are encoded in the canonical protobuf wire
//! format ([`wire`], [`templates`]). [`streaming`] frames arbitrary-length
//! streams into individually authenticated AES-GCM segments, and
//! [`envelope`] seals a fresh data key per message under a remote key.

pub mod aead;
pub mod crypto;
pub mod envelope;
pub mod error;
pub mod handle;
pub mod keyset;
pub mod manager;
pub mod proto;
pub mod streaming;
pub mod templates;
pub mod wire;
