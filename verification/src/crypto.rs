use vstd::prelude::*;
use crate::data::Data;
use crate::error::CipherError;
use crate::growable_data::GrowableData;

verus! {

/// The ciphertext, tag appended, that XChaCha20-Poly1305 produces for a key,
/// a nonce and a plaintext; it depends on those three alone.
pub uninterp spec fn seal_of(key: Seq<u8>, nonce: Seq<u8>, plaintext: Seq<u8>) -> Seq<u8>;

/// The plaintext that XChaCha20-Poly1305 recovers for a key, a nonce and a
/// ciphertext with its tag, or `None` when authentication fails; it depends
/// on those three alone.
pub uninterp spec fn open_of(key: Seq<u8>, nonce: Seq<u8>, ciphertext: Seq<u8>) -> Option<
    Seq<u8>,
>;

/// Relies on chacha20poly1305::XChaCha20Poly1305 through aead::Aead::encrypt:
/// for a 32-byte key and a 24-byte nonce it deterministically returns the
/// ciphertext with the 16-byte Poly1305 tag appended, and aead::Aead::decrypt
/// under the same key and nonce recovers exactly the plaintext.
#[verifier::external_body]
fn xchacha_seal(key: &[u8], nonce: &[u8], plaintext: &[u8]) -> (r: Option<Vec<u8>>)
    requires
        key@.len() == 32,
        nonce@.len() == 24,
    ensures
        r matches Some(c) ==> {
            &&& c@ == seal_of(key@, nonce@, plaintext@)
            &&& c@.len() == plaintext@.len() + 16
            &&& open_of(key@, nonce@, c@) == Some(plaintext@)
        },
{
    let cipher = <chacha20poly1305::XChaCha20Poly1305 as chacha20poly1305::KeyInit>::new_from_slice(
        key,
    ).unwrap();
    let nonce = chacha20poly1305::XNonce::try_from(nonce).unwrap();
    match chacha20poly1305::aead::Aead::encrypt(&cipher, &nonce, plaintext) {
        Ok(c) => Some(c),
        Err(_) => None,
    }
}

/// Relies on chacha20poly1305::XChaCha20Poly1305 through aead::Aead::decrypt:
/// for a 32-byte key and a 24-byte nonce it returns the plaintext exactly
/// when the tag authenticates, and the plaintext is 16 bytes shorter than
/// the ciphertext; the outcome depends on key, nonce and ciphertext alone.
#[verifier::external_body]
fn xchacha_open(key: &[u8], nonce: &[u8], ciphertext: &[u8]) -> (r: Option<Vec<u8>>)
    requires
        key@.len() == 32,
        nonce@.len() == 24,
    ensures
        (r is Some <==> open_of(key@, nonce@, ciphertext@) is Some),
        r matches Some(p) ==> {
            &&& Some(p@) == open_of(key@, nonce@, ciphertext@)
            &&& ciphertext@.len() >= 16
            &&& p@.len() + 16 == ciphertext@.len()
        },
{
    let cipher = <chacha20poly1305::XChaCha20Poly1305 as chacha20poly1305::KeyInit>::new_from_slice(
        key,
    ).unwrap();
    let nonce = chacha20poly1305::XNonce::try_from(nonce).unwrap();
    match chacha20poly1305::aead::Aead::decrypt(&cipher, &nonce, ciphertext) {
        Ok(p) => Some(p),
        Err(_) => None,
    }
}

/// Relies on getrandom::fill for fresh nonce material; nothing is assumed of
/// the bytes beyond their count.
#[verifier::external_body]
fn random_bytes(n: usize) -> (r: Option<Vec<u8>>)
    ensures
        r matches Some(v) ==> v@.len() == n,
{
    let mut buf = vec![0u8; n];
    match getrandom::fill(&mut buf) {
        Ok(()) => Some(buf),
        Err(_) => None,
    }
}

/// A symmetric encryption key, held as plain bytes.
pub struct EncryptionKey {
    pub bytes: Vec<u8>,
}

impl View for EncryptionKey {
    type V = Seq<u8>;

    open spec fn view(&self) -> Seq<u8> {
        self.bytes@
    }
}

impl EncryptionKey {
    pub fn from_bytes(bytes: Vec<u8>) -> (r: EncryptionKey)
        ensures
            r@ == bytes@,
    {
        EncryptionKey { bytes }
    }

    pub fn len(&self) -> (r: usize)
        ensures
            r == self@.len(),
    {
        self.bytes.len()
    }
}

/// An algorithm-agnostic cipher: a fixed ciphertext overhead known without
/// running an operation, encryption into a buffer's reserved prefix, and
/// authenticated decryption. `spec_decrypt` is the instance's mathematical
/// decryption function; `encrypt` promising that `spec_decrypt` recovers the
/// plaintext and `decrypt` promising to compute `spec_decrypt` together
/// state the round trip: decrypting an encrypted block yields the block.
pub trait Cipher: Sized {
    /// How many bytes a ciphertext is larger than its plaintext.
    spec fn spec_overhead(&self) -> nat;

    /// What decryption returns on each possible input.
    spec fn spec_decrypt(&self, ciphertext: Seq<u8>) -> Option<Seq<u8>>;

    fn ciphertext_overhead(&self) -> (r: usize)
        ensures
            r == self.spec_overhead(),
    ;

    /// Encrypt the window in place, writing nonce and tag material into the
    /// reclaimed prefix reserve; the result's window is the full ciphertext.
    fn encrypt(&self, data: GrowableData) -> (r: Result<GrowableData, CipherError>)
        requires
            data.wf(),
            data.prefix_capacity() >= self.spec_overhead(),
        ensures
            r matches Ok(c) ==> {
                &&& c.wf()
                &&& c.prefix_capacity() == data.prefix_capacity() - self.spec_overhead()
                &&& c.suffix_capacity() == data.suffix_capacity()
                &&& c.spec_len() == data.spec_len() + self.spec_overhead()
                &&& self.spec_decrypt(c.window()) == Some(data.window())
            },
            r matches Err(e) ==> e is EncryptionFailed,
    ;

    /// Verify and decrypt; returns the plaintext exactly when
    /// `spec_decrypt` does, and never partial or unauthenticated output.
    fn decrypt(&self, data: Data) -> (r: Result<Data, CipherError>)
        requires
            data.wf(),
        ensures
            (r is Ok <==> self.spec_decrypt(data.window()) is Some),
            r matches Ok(p) ==> p.wf() && Some(p.window()) == self.spec_decrypt(data.window()),
            r matches Err(e) ==> e is DecryptionFailed,
    ;
}

/// XChaCha20-Poly1305: 24-byte nonce, 16-byte tag, 32-byte key. The wire
/// shape of one ciphertext is `nonce ++ body ++ tag`.
pub struct XChaCha20Poly1305 {
    pub key: EncryptionKey,
}

/// Nonce plus tag.
pub const XCHACHA_OVERHEAD: usize = 40;

impl XChaCha20Poly1305 {
    pub fn new(key: EncryptionKey) -> (r: Self)
        requires
            key@.len() == 32,
        ensures
            r.key == key,
    {
        XChaCha20Poly1305 { key }
    }

    pub open spec fn wf(&self) -> bool {
        self.key@.len() == 32
    }
}

impl Cipher for XChaCha20Poly1305 {
    open spec fn spec_overhead(&self) -> nat {
        40
    }

    open spec fn spec_decrypt(&self, ciphertext: Seq<u8>) -> Option<Seq<u8>> {
        if self.key@.len() == 32 && ciphertext.len() >= 40 {
            open_of(
                self.key@,
                ciphertext.subrange(0, 24),
                ciphertext.subrange(24, ciphertext.len() as int),
            )
        } else {
            None
        }
    }

    fn ciphertext_overhead(&self) -> (r: usize) {
        XCHACHA_OVERHEAD
    }

    fn encrypt(&self, data: GrowableData) -> (r: Result<GrowableData, CipherError>) {
        if self.key.bytes.len() != 32 {
            return Err(CipherError::EncryptionFailed);
        }
        let plaintext = data.to_vec();
        let nonce = match random_bytes(24) {
            Some(n) => n,
            None => {
                return Err(CipherError::EncryptionFailed);
            },
        };
        let sealed = match xchacha_seal(
            self.key.bytes.as_slice(),
            nonce.as_slice(),
            plaintext.as_slice(),
        ) {
            Some(s) => s,
            None => {
                return Err(CipherError::EncryptionFailed);
            },
        };
        let ghost old_data = data;
        let mut out = data.grow_region(40, 0);
        let mut i: usize = 0;
        while i < 24
            invariant
                out.wf(),
                old_data.wf(),
                i <= 24,
                nonce@.len() == 24,
                out.spec_len() == old_data.spec_len() + 40,
                out.prefix_capacity() == old_data.prefix_capacity() - 40,
                out.suffix_capacity() == old_data.suffix_capacity(),
                forall|j: int| 0 <= j < i ==> out.window()[j] == nonce@[j],
                out.window().subrange(40, out.spec_len()) == old_data.window(),
            decreases 24 - i,
        {
            proof {
                assert(out.window().subrange(40, out.spec_len()).len() == old_data.spec_len());
            }
            let ghost before = out;
            out.set(i, nonce[i]);
            proof {
                assert(out.window().subrange(40, out.spec_len()) =~= before.window().subrange(
                    40,
                    before.spec_len(),
                ));
            }
            i = i + 1;
        }
        let n = sealed.len();
        let mut j: usize = 0;
        while j < n
            invariant
                out.wf(),
                old_data.wf(),
                j <= n,
                n == sealed@.len(),
                nonce@.len() == 24,
                sealed@.len() == old_data.spec_len() + 16,
                out.spec_len() == old_data.spec_len() + 40,
                out.prefix_capacity() == old_data.prefix_capacity() - 40,
                out.suffix_capacity() == old_data.suffix_capacity(),
                forall|k: int| 0 <= k < 24 ==> out.window()[k] == nonce@[k],
                forall|k: int| 0 <= k < j ==> out.window()[24 + k] == sealed@[k],
            decreases n - j,
        {
            out.set(24 + j, sealed[j]);
            j = j + 1;
        }
        proof {
            assert(out.window().subrange(0, 24) =~= nonce@);
            assert(out.window().subrange(24, out.spec_len()) =~= sealed@);
            assert(self.spec_decrypt(out.window()) == Some(old_data.window()));
        }
        Ok(out)
    }

    fn decrypt(&self, data: Data) -> (r: Result<Data, CipherError>) {
        if self.key.bytes.len() != 32 {
            return Err(CipherError::DecryptionFailed);
        }
        let n = data.len();
        if n < 40 {
            return Err(CipherError::DecryptionFailed);
        }
        let bytes = data.to_vec();
        let mut nonce: Vec<u8> = Vec::new();
        let mut i: usize = 0;
        while i < 24
            invariant
                data.wf(),
                i <= 24,
                n == data.spec_len(),
                n >= 40,
                bytes@ == data.window(),
                nonce@ =~= data.window().subrange(0, i as int),
            decreases 24 - i,
        {
            nonce.push(bytes[i]);
            i = i + 1;
        }
        let mut body: Vec<u8> = Vec::new();
        let mut j: usize = 24;
        while j < n
            invariant
                data.wf(),
                24 <= j <= n,
                n == data.spec_len(),
                n >= 40,
                bytes@ == data.window(),
                body@ =~= data.window().subrange(24, j as int),
            decreases n - j,
        {
            body.push(bytes[j]);
            j = j + 1;
        }
        proof {
            assert(nonce@ =~= data.window().subrange(0, 24));
            assert(body@ =~= data.window().subrange(24, data.spec_len()));
        }
        match xchacha_open(self.key.bytes.as_slice(), nonce.as_slice(), body.as_slice()) {
            Some(p) => Ok(Data::from_vec(p)),
            None => Err(CipherError::DecryptionFailed),
        }
    }
}

} // verus!
