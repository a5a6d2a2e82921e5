use vstd::prelude::*;

verus! {

/// The typed failures of the encrypted block store. Absence of a block is
/// not an error; it is reported as `None` by `load`.
#[derive(Debug)]
pub enum BlockStoreError {
    /// The physical block size cannot hold the format-version header plus
    /// the cipher overhead; `min_required` names the size that would.
    ConfigurationError { block_size: u64, min_required: u64 },
    /// A stored block does not begin with the format-version header;
    /// `found` holds the bytes that stood in its place.
    CorruptBlock { found: Vec<u8> },
    /// Authentication of the ciphertext failed: tampered data, a wrong key,
    /// or truncation. No plaintext is returned alongside this error.
    DecryptionFailed,
    /// The cipher refused to produce a ciphertext.
    EncryptionFailed,
    /// A failure of the backing store, propagated unchanged.
    UnderlyingStore,
}

/// The error of a cipher operation, kept apart from the store's errors so
/// that a cipher can be used on its own.
#[derive(Debug)]
pub enum CipherError {
    EncryptionFailed,
    DecryptionFailed,
}

} // verus!
