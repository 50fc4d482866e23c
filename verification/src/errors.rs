use vstd::prelude::*;

verus! {

/// Failure taxonomy of the clipboard-history store.
///
/// `Locked`: encrypt/decrypt was asked for while no master key is loaded.
/// `Authentication`: an authenticated-encryption tag did not verify
/// (tampered blob, truncated blob, or a different master key).
/// `MalformedInput`: an encrypted blob is too short to even hold a nonce
/// and a tag.
/// `KeyStore`: the protected secret store (or the system randomness source
/// feeding it) was not usable.
/// `StorageInit`: the persistent item store could not be created or opened,
/// or can assign no further row id.
/// `NotFound`: no stored item carries the requested id.
/// `Decryption`: caller-facing wrap of an authentication failure during
/// copy-back.
#[derive(Clone, Copy, Debug, PartialEq, Eq, Structural)]
pub enum CliperError {
    Locked,
    Authentication,
    MalformedInput,
    KeyStore,
    StorageInit,
    NotFound,
    Decryption,
}

} // verus!
