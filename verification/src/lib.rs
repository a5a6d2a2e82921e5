mod crypto;
mod data;
mod error;
mod growable_data;
mod inmemory;
mod store;

pub use crypto::Cipher;
pub use crypto::EncryptionKey;
pub use crypto::XChaCha20Poly1305;
pub use crypto::XCHACHA_OVERHEAD;
pub use crypto::open_of;
pub use crypto::seal_of;
pub use growable_data::lemma_shrink_compose;
pub use data::Data;
pub use error::BlockStoreError;
pub use error::CipherError;
pub use growable_data::GrowableData;
pub use inmemory::InMemoryBlockStore;
pub use inmemory::blocks_of;
pub use inmemory::keys_unique;
pub use store::BlockId;
pub use store::BlockStore;
pub use store::EncryptedBlockStore;
pub use store::header_bytes_found;
pub use store::sub_header_len;
pub use store::_check_and_remove_header;
pub use store::_prepend_header;
pub use store::FORMAT_VERSION_HEADER_LEN;

use vstd::prelude::*;

verus! {

/// The format-version header that prefixes every physical block:
/// version 1, pinned to little-endian byte order at the wire format.
pub open spec fn header_seq() -> Seq<u8> {
    seq![1u8, 0u8]
}

} // verus!
