use vstd::prelude::*;
use crate::crypto::Cipher;
use crate::data::Data;
use crate::error::BlockStoreError;
use crate::growable_data::GrowableData;

verus! {

pub const FORMAT_VERSION_HEADER_LEN: usize = 2;

/// An opaque identifier, the key of every store operation; equality is
/// byte-exact.
pub struct BlockId {
    pub bytes: Vec<u8>,
}

impl View for BlockId {
    type V = Seq<u8>;

    open spec fn view(&self) -> Seq<u8> {
        self.bytes@
    }
}

impl BlockId {
    pub fn new(bytes: Vec<u8>) -> (r: BlockId)
        ensures
            r@ == bytes@,
    {
        BlockId { bytes }
    }

    pub fn data(&self) -> (r: &[u8])
        ensures
            r@ == self@,
    {
        self.bytes.as_slice()
    }
}

/// The bytes reported by a corrupt-block failure: the first two bytes of the
/// stored block, or all of it when it is shorter than the header.
pub open spec fn header_bytes_found(w: Seq<u8>) -> Seq<u8> {
    if w.len() >= 2 {
        w.take(2)
    } else {
        w
    }
}

/// The underlying block store that the encryption layer composes with.
/// `blocks` is its logical contents, block id bytes to stored bytes; the
/// optimized write path stores exactly the window of the buffer it is
/// handed, having reserved `spec_required_prefix` bytes for its own use.
pub trait BlockStore: Sized {
    spec fn blocks(&self) -> Map<Seq<u8>, Seq<u8>>;

    /// The store's internal well-formedness; constructors establish it and
    /// every operation preserves it.
    spec fn inv(&self) -> bool;

    /// The store's estimate of remaining free space.
    spec fn spec_free_bytes(&self) -> u64;

    /// Prefix bytes this store wants reserved in buffers handed to its
    /// optimized write path.
    spec fn spec_required_prefix(&self) -> nat;

    fn required_prefix_bytes_total(&self) -> (r: usize)
        requires
            self.inv(),
        ensures
            r == self.spec_required_prefix(),
    ;

    fn load(&self, id: &BlockId) -> (r: Result<Option<Data>, BlockStoreError>)
        requires
            self.inv(),
        ensures
            r matches Ok(o) ==> match o {
                Some(d) => d.wf() && self.blocks().dom().contains(id@) && d.window()
                    == self.blocks()[id@],
                None => !self.blocks().dom().contains(id@),
            },
            r matches Err(e) ==> e is UnderlyingStore,
    ;

    fn store_optimized(&mut self, id: &BlockId, data: GrowableData) -> (r: Result<
        (),
        BlockStoreError,
    >)
        requires
            old(self).inv(),
            data.wf(),
            data.prefix_capacity() == old(self).spec_required_prefix(),
        ensures
            final(self).inv(),
            final(self).spec_required_prefix() == old(self).spec_required_prefix(),
            r is Ok ==> final(self).blocks() == old(self).blocks().insert(id@, data.window()),
            r matches Err(e) ==> e is UnderlyingStore && final(self).blocks() == old(
                self,
            ).blocks(),
    ;

    fn try_create_optimized(&mut self, id: &BlockId, data: GrowableData) -> (r: Result<
        bool,
        BlockStoreError,
    >)
        requires
            old(self).inv(),
            data.wf(),
            data.prefix_capacity() == old(self).spec_required_prefix(),
        ensures
            final(self).inv(),
            final(self).spec_required_prefix() == old(self).spec_required_prefix(),
            r matches Ok(created) ==> if created {
                !old(self).blocks().dom().contains(id@) && final(self).blocks() == old(
                    self,
                ).blocks().insert(id@, data.window())
            } else {
                old(self).blocks().dom().contains(id@) && final(self).blocks() == old(
                    self,
                ).blocks()
            },
            r matches Err(e) ==> e is UnderlyingStore && final(self).blocks() == old(
                self,
            ).blocks(),
    ;

    fn remove(&mut self, id: &BlockId) -> (r: Result<bool, BlockStoreError>)
        requires
            old(self).inv(),
        ensures
            final(self).inv(),
            final(self).spec_required_prefix() == old(self).spec_required_prefix(),
            r matches Ok(existed) ==> existed == old(self).blocks().dom().contains(id@) && final(self).blocks() == old(self).blocks().remove(id@),
            r matches Err(e) ==> e is UnderlyingStore && final(self).blocks() == old(
                self,
            ).blocks(),
    ;

    fn num_blocks(&self) -> (r: Result<u64, BlockStoreError>)
        requires
            self.inv(),
        ensures
            r matches Ok(n) ==> n == self.blocks().dom().len(),
            r matches Err(e) ==> e is UnderlyingStore,
    ;

    fn estimate_num_free_bytes(&self) -> (r: Result<u64, BlockStoreError>)
        requires
            self.inv(),
        ensures
            r matches Ok(n) ==> n == self.spec_free_bytes(),
            r matches Err(e) ==> e is UnderlyingStore,
    ;

    fn all_blocks(&self) -> (r: Result<Vec<BlockId>, BlockStoreError>)
        requires
            self.inv(),
        ensures
            r matches Ok(ids) ==> {
                &&& ids.len() == self.blocks().dom().len()
                &&& forall|i: int|
                    0 <= i < ids@.len() ==> self.blocks().dom().contains(#[trigger] ids@[i]@)
                &&& forall|k: Seq<u8>|
                    self.blocks().dom().contains(k) ==> exists|i: int|
                        0 <= i < ids@.len() && #[trigger] ids@[i]@ == k
            },
            r matches Err(e) ==> e is UnderlyingStore,
    ;
}

/// Validate and strip the two format-version header bytes from the front of
/// a stored block; the stripped bytes join the prefix reserve. Fails with a
/// corrupt-block error, reporting the bytes found, exactly when the block
/// does not begin with the header.
pub fn _check_and_remove_header(data: Data) -> (r: Result<Data, BlockStoreError>)
    requires
        data.wf(),
    ensures
        (r is Ok <==> data.window().len() >= 2 && data.window().subrange(0, 2)
            == crate::header_seq()),
        r matches Ok(d) ==> {
            &&& d.wf()
            &&& d.full() == data.full()
            &&& d.window() == data.window().skip(2)
            &&& d.prefix_reserve() == data.prefix_reserve() + 2
            &&& d.suffix_reserve() == data.suffix_reserve()
        },
        r matches Err(e) ==> match e {
            BlockStoreError::CorruptBlock { found } => found@ == header_bytes_found(
                data.window(),
            ),
            _ => false,
        },
{
    let n = data.len();
    if n < 2 {
        let found = data.to_vec();
        return Err(BlockStoreError::CorruptBlock { found });
    }
    let b0 = data.get(0);
    let b1 = data.get(1);
    if b0 == 1 && b1 == 0 {
        proof {
            assert(data.window().subrange(0, 2) =~= crate::header_seq());
        }
        let r = data.into_subregion(2, 0);
        proof {
            assert(r.window() =~= data.window().skip(2));
        }
        Ok(r)
    } else {
        proof {
            assert(data.window().subrange(0, 2)[0] == b0);
            assert(data.window().subrange(0, 2)[1] == b1);
        }
        let found = vec![b0, b1];
        proof {
            assert(found@ =~= data.window().take(2));
        }
        Err(BlockStoreError::CorruptBlock { found })
    }
}

/// Write the two format-version header bytes into the buffer's reserved
/// prefix, growing the window backward by exactly the header length.
pub fn _prepend_header(data: GrowableData) -> (r: GrowableData)
    requires
        data.wf(),
        data.prefix_capacity() >= 2,
    ensures
        r.wf(),
        r.window() == crate::header_seq() + data.window(),
        r.prefix_capacity() == data.prefix_capacity() - 2,
        r.suffix_capacity() == data.suffix_capacity(),
        r.spec_len() == data.spec_len() + 2,
{
    let mut d = data.grow_region(2, 0);
    let ghost grown = d;
    d.set(0, 1);
    d.set(1, 0);
    proof {
        assert forall|i: int| 0 <= i < d.spec_len() implies d.window()[i] == (crate::header_seq()
            + data.window())[i] by {
            if i >= 2 {
                assert(grown.window().subrange(2, 2 + data.spec_len())[i - 2]
                    == grown.window()[i]);
            }
        }
        assert(d.window() =~= crate::header_seq() + data.window());
    }
    d
}

/// The window length left after the format-version header is taken off.
pub fn sub_header_len(size: usize) -> (r: usize)
    requires
        size >= 2,
    ensures
        r == size - 2,
{
    size - 2
}

/// The encryption layer over an underlying block store: every block is
/// encrypted with the cipher and prefixed with the format-version header on
/// its way down, and validated, stripped and decrypted on its way up; the
/// remaining operations pass through untouched.
pub struct EncryptedBlockStore<C: Cipher, B: BlockStore> {
    pub underlying_block_store: B,
    pub cipher: C,
}

impl<C: Cipher, B: BlockStore> EncryptedBlockStore<C, B> {
    /// This layer's own reserve demand plus the underlying store's.
    pub open spec fn spec_required_prefix_total(&self) -> int {
        self.underlying_block_store.spec_required_prefix() + 2 + self.cipher.spec_overhead() as int
    }

    /// The combined reserve demand fits the machine and the underlying
    /// store's own invariant holds.
    pub open spec fn wf(&self) -> bool {
        self.spec_required_prefix_total() <= usize::MAX && self.underlying_block_store.inv()
    }

    pub fn new(underlying_block_store: B, cipher: C) -> (r: Self)
        requires
            underlying_block_store.inv(),
            underlying_block_store.spec_required_prefix() + 2 + cipher.spec_overhead()
                <= usize::MAX,
        ensures
            r.underlying_block_store == underlying_block_store,
            r.cipher == cipher,
            r.wf(),
    {
        Self { underlying_block_store, cipher }
    }

    /// Header length plus cipher overhead plus whatever the underlying
    /// store reserves for itself.
    pub fn required_prefix_bytes_total(&self) -> (r: usize)
        requires
            self.wf(),
        ensures
            r == self.spec_required_prefix_total(),
    {
        self.underlying_block_store.required_prefix_bytes_total() + FORMAT_VERSION_HEADER_LEN
            + self.cipher.ciphertext_overhead()
    }

    /// A zeroed buffer whose window is exactly `size` bytes and whose
    /// prefix reserve is exactly what the whole stack needs to write its
    /// headers in place.
    pub fn allocate(&self, size: usize) -> (r: GrowableData)
        requires
            self.wf(),
            self.spec_required_prefix_total() + size <= usize::MAX,
        ensures
            r.wf(),
            r.prefix_capacity() == self.spec_required_prefix_total(),
            r.suffix_capacity() == 0,
            r.spec_len() == size,
            r.window() == Seq::new(size as nat, |i: int| 0u8),
    {
        let total = self.required_prefix_bytes_total();
        let mut storage: Vec<u8> = Vec::new();
        let mut i: usize = 0;
        while i < total + size
            invariant
                i <= total + size,
                total + size <= usize::MAX,
                storage@ =~= Seq::new(i as nat, |k: int| 0u8),
            decreases total + size - i,
        {
            storage.push(0u8);
            i = i + 1;
        }
        let g = GrowableData::from_vec(storage);
        let r = g.into_subregion(total, 0);
        proof {
            assert(r.window() =~= Seq::new(size as nat, |i: int| 0u8));
        }
        r
    }

    /// Encrypt the buffer's window in place and prepend the format-version
    /// header into the remaining reserve, leaving exactly the underlying
    /// store's own reserve.
    pub fn _encrypt(&self, plaintext: GrowableData) -> (r: Result<GrowableData, BlockStoreError>)
        requires
            self.wf(),
            plaintext.wf(),
            plaintext.prefix_capacity() == self.spec_required_prefix_total(),
        ensures
            r matches Ok(c) ==> {
                &&& c.wf()
                &&& c.prefix_capacity() == self.underlying_block_store.spec_required_prefix()
                &&& c.suffix_capacity() == plaintext.suffix_capacity()
                &&& c.spec_len() == plaintext.spec_len() + 2 + self.cipher.spec_overhead()
                &&& c.window().subrange(0, 2) == crate::header_seq()
                &&& self.cipher.spec_decrypt(c.window().skip(2)) == Some(plaintext.window())
            },
            r matches Err(e) ==> e is EncryptionFailed,
    {
        match self.cipher.encrypt(plaintext) {
            Ok(ciphertext) => {
                let r = _prepend_header(ciphertext);
                proof {
                    assert(r.window().subrange(0, 2) =~= crate::header_seq());
                    assert(r.window().skip(2) =~= ciphertext.window());
                }
                Ok(r)
            },
            Err(_) => Err(BlockStoreError::EncryptionFailed),
        }
    }

    /// Validate the header, strip it, and decrypt what remains. Succeeds
    /// exactly when the block begins with the format-version header and the
    /// cipher authenticates the rest.
    pub fn _decrypt(&self, ciphertext: Data) -> (r: Result<Data, BlockStoreError>)
        requires
            ciphertext.wf(),
        ensures
            (r is Ok <==> ciphertext.window().len() >= 2 && ciphertext.window().subrange(0, 2)
                == crate::header_seq() && self.cipher.spec_decrypt(ciphertext.window().skip(2))
                is Some),
            r matches Ok(p) ==> p.wf() && Some(p.window()) == self.cipher.spec_decrypt(
                ciphertext.window().skip(2),
            ),
            r matches Err(e) ==> match e {
                BlockStoreError::CorruptBlock { found } => !(ciphertext.window().len() >= 2
                    && ciphertext.window().subrange(0, 2) == crate::header_seq()) && found@
                    == header_bytes_found(ciphertext.window()),
                BlockStoreError::DecryptionFailed => ciphertext.window().len() >= 2
                    && ciphertext.window().subrange(0, 2) == crate::header_seq()
                    && self.cipher.spec_decrypt(ciphertext.window().skip(2)) is None,
                _ => false,
            },
    {
        match _check_and_remove_header(ciphertext) {
            Ok(stripped) => match self.cipher.decrypt(stripped) {
                Ok(p) => Ok(p),
                Err(_) => Err(BlockStoreError::DecryptionFailed),
            },
            Err(e) => Err(e),
        }
    }

    /// Load a block: absence is propagated as `None`, a bad header fails
    /// with a corrupt-block error, and a failed authentication fails with a
    /// decryption error; no partial output on any failure.
    pub fn load(&self, id: &BlockId) -> (r: Result<Option<Data>, BlockStoreError>)
        requires
            self.wf(),
        ensures
            r matches Ok(o) ==> match o {
                Some(p) => {
                    &&& p.wf()
                    &&& self.underlying_block_store.blocks().dom().contains(id@)
                    &&& self.underlying_block_store.blocks()[id@].len() >= 2
                    &&& self.underlying_block_store.blocks()[id@].subrange(0, 2)
                        == crate::header_seq()
                    &&& Some(p.window()) == self.cipher.spec_decrypt(
                        self.underlying_block_store.blocks()[id@].skip(2),
                    )
                },
                None => !self.underlying_block_store.blocks().dom().contains(id@),
            },
            r matches Err(e) ==> match e {
                BlockStoreError::CorruptBlock { found } => {
                    &&& self.underlying_block_store.blocks().dom().contains(id@)
                    &&& !(self.underlying_block_store.blocks()[id@].len() >= 2
                        && self.underlying_block_store.blocks()[id@].subrange(0, 2)
                        == crate::header_seq())
                    &&& found@ == header_bytes_found(self.underlying_block_store.blocks()[id@])
                },
                BlockStoreError::DecryptionFailed => {
                    &&& self.underlying_block_store.blocks().dom().contains(id@)
                    &&& self.underlying_block_store.blocks()[id@].len() >= 2
                    &&& self.underlying_block_store.blocks()[id@].subrange(0, 2)
                        == crate::header_seq()
                    &&& self.cipher.spec_decrypt(
                        self.underlying_block_store.blocks()[id@].skip(2),
                    ) is None
                },
                BlockStoreError::UnderlyingStore => true,
                _ => false,
            },
    {
        match self.underlying_block_store.load(id) {
            Ok(None) => Ok(None),
            Ok(Some(loaded)) => match self._decrypt(loaded) {
                Ok(p) => Ok(Some(p)),
                Err(e) => Err(e),
            },
            Err(e) => Err(e),
        }
    }

    /// Store under the optimized write path: the buffer must come from
    /// `allocate`. What reaches the underlying store is the header followed
    /// by a ciphertext that decrypts to exactly the plaintext window.
    pub fn store_optimized(&mut self, id: &BlockId, data: GrowableData) -> (r: Result<
        (),
        BlockStoreError,
    >)
        requires
            old(self).wf(),
            data.wf(),
            data.prefix_capacity() == old(self).spec_required_prefix_total(),
        ensures
            final(self).wf(),
            final(self).cipher == old(self).cipher,
            final(self).underlying_block_store.spec_required_prefix() == old(
                self,
            ).underlying_block_store.spec_required_prefix(),
            r is Ok ==> {
                let stored = final(self).underlying_block_store.blocks()[id@];
                &&& final(self).underlying_block_store.blocks() == old(
                    self,
                ).underlying_block_store.blocks().insert(id@, stored)
                &&& stored.len() == data.spec_len() + 2 + old(self).cipher.spec_overhead()
                &&& stored.subrange(0, 2) == crate::header_seq()
                &&& old(self).cipher.spec_decrypt(stored.skip(2)) == Some(data.window())
            },
            r matches Err(e) ==> (e is EncryptionFailed || e is UnderlyingStore) && final(self).underlying_block_store.blocks() == old(self).underlying_block_store.blocks(),
    {
        let ciphertext = match self._encrypt(data) {
            Ok(c) => c,
            Err(e) => {
                return Err(e);
            },
        };
        match self.underlying_block_store.store_optimized(id, ciphertext) {
            Ok(()) => Ok(()),
            Err(e) => Err(e),
        }
    }

    /// Create the block only if it does not exist yet; `Ok(true)` means it
    /// was created, `Ok(false)` that a block with this id already existed
    /// and nothing was stored.
    pub fn try_create_optimized(&mut self, id: &BlockId, data: GrowableData) -> (r: Result<
        bool,
        BlockStoreError,
    >)
        requires
            old(self).wf(),
            data.wf(),
            data.prefix_capacity() == old(self).spec_required_prefix_total(),
        ensures
            final(self).wf(),
            final(self).cipher == old(self).cipher,
            final(self).underlying_block_store.spec_required_prefix() == old(
                self,
            ).underlying_block_store.spec_required_prefix(),
            r matches Ok(created) ==> if created {
                let stored = final(self).underlying_block_store.blocks()[id@];
                &&& !old(self).underlying_block_store.blocks().dom().contains(id@)
                &&& final(self).underlying_block_store.blocks() == old(
                    self,
                ).underlying_block_store.blocks().insert(id@, stored)
                &&& stored.len() == data.spec_len() + 2 + old(self).cipher.spec_overhead()
                &&& stored.subrange(0, 2) == crate::header_seq()
                &&& old(self).cipher.spec_decrypt(stored.skip(2)) == Some(data.window())
            } else {
                old(self).underlying_block_store.blocks().dom().contains(id@) && final(self).underlying_block_store.blocks() == old(self).underlying_block_store.blocks()
            },
            r matches Err(e) ==> (e is EncryptionFailed || e is UnderlyingStore) && final(self).underlying_block_store.blocks() == old(self).underlying_block_store.blocks(),
    {
        let ciphertext = match self._encrypt(data) {
            Ok(c) => c,
            Err(e) => {
                return Err(e);
            },
        };
        self.underlying_block_store.try_create_optimized(id, ciphertext)
    }

    /// Passthrough: removal is the underlying store's, untouched.
    pub fn remove(&mut self, id: &BlockId) -> (r: Result<bool, BlockStoreError>)
        requires
            old(self).wf(),
        ensures
            final(self).wf(),
            final(self).cipher == old(self).cipher,
            final(self).underlying_block_store.spec_required_prefix() == old(
                self,
            ).underlying_block_store.spec_required_prefix(),
            r matches Ok(existed) ==> existed == old(
                self,
            ).underlying_block_store.blocks().dom().contains(id@) && final(self).underlying_block_store.blocks() == old(self).underlying_block_store.blocks().remove(
                id@,
            ),
            r matches Err(e) ==> e is UnderlyingStore && final(self).underlying_block_store.blocks() == old(self).underlying_block_store.blocks(),
    {
        self.underlying_block_store.remove(id)
    }

    /// Passthrough: exactly the underlying store's block count.
    pub fn num_blocks(&self) -> (r: Result<u64, BlockStoreError>)
        requires
            self.wf(),
        ensures
            r matches Ok(n) ==> n == self.underlying_block_store.blocks().dom().len(),
            r matches Err(e) ==> e is UnderlyingStore,
    {
        self.underlying_block_store.num_blocks()
    }

    /// Passthrough: exactly the underlying store's estimate.
    pub fn estimate_num_free_bytes(&self) -> (r: Result<u64, BlockStoreError>)
        requires
            self.wf(),
        ensures
            r matches Ok(n) ==> n == self.underlying_block_store.spec_free_bytes(),
            r matches Err(e) ==> e is UnderlyingStore,
    {
        self.underlying_block_store.estimate_num_free_bytes()
    }

    /// Passthrough: exactly the underlying store's enumeration; order is
    /// not guaranteed.
    pub fn all_blocks(&self) -> (r: Result<Vec<BlockId>, BlockStoreError>)
        requires
            self.wf(),
        ensures
            r matches Ok(ids) ==> {
                &&& ids.len() == self.underlying_block_store.blocks().dom().len()
                &&& forall|i: int|
                    0 <= i < ids@.len() ==> self.underlying_block_store.blocks().dom().contains(
                        #[trigger] ids@[i]@,
                    )
                &&& forall|k: Seq<u8>|
                    self.underlying_block_store.blocks().dom().contains(k) ==> exists|i: int|
                        0 <= i < ids@.len() && #[trigger] ids@[i]@ == k
            },
            r matches Err(e) ==> e is UnderlyingStore,
    {
        self.underlying_block_store.all_blocks()
    }

    /// How much plaintext fits a physical block of the given size: the size
    /// less the header length and the cipher overhead. Fails with a
    /// configuration error, naming the minimum workable size, when the
    /// physical block cannot hold even the headers.
    pub fn block_size_from_physical_block_size(&self, block_size: u64) -> (r: Result<
        u64,
        BlockStoreError,
    >)
        requires
            self.wf(),
        ensures
            block_size >= 2 + self.cipher.spec_overhead() ==> (r matches Ok(n) && n == block_size
                - 2 - self.cipher.spec_overhead()),
            block_size < 2 ==> r == Err::<u64, BlockStoreError>(
                BlockStoreError::ConfigurationError { block_size, min_required: 2 },
            ),
            2 <= block_size < 2 + self.cipher.spec_overhead() ==> (r matches Err(e) && e == (
            BlockStoreError::ConfigurationError {
                block_size,
                min_required: (2 + self.cipher.spec_overhead()) as u64,
            })),
    {
        if block_size < 2 {
            return Err(BlockStoreError::ConfigurationError { block_size, min_required: 2 });
        }
        let ciphertext_size = block_size - 2;
        let overhead = self.cipher.ciphertext_overhead() as u64;
        if ciphertext_size < overhead {
            return Err(
                BlockStoreError::ConfigurationError {
                    block_size,
                    min_required: 2 + overhead,
                },
            );
        }
        Ok(ciphertext_size - overhead)
    }
}

} // verus!
