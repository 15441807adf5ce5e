//! The wrapper that encrypts the content of any backend.
//!
//! Each opened file gets a cipher of its own, seeded from the key and the
//! nonce of the wrapper: what is written is encrypted before it reaches
//! the backend, what is read is decrypted after it left the backend. All
//! other operations pass through unchanged. The cipher gives
//! confidentiality only; the same keystream is used for every file.
use chacha20::ChaCha20;
use chacha20::cipher::{KeyIvInit, StreamCipher, StreamCipherSeek};
use crate::error::FsError;
use vstd::prelude::*;

verus! {

/// The length of the key in bytes.
pub const KEY_LEN: usize = 32;

/// The length of the nonce in bytes.
pub const NONCE_LEN: usize = 12;

/// The length of the keystream of one cipher in bytes: all blocks of 64
/// bytes that a block counter of 32 bits can number, but one.
pub open spec fn keystream_len() -> nat {
    274877906880
}

/// The length of the keystream of one cipher in bytes.
pub const KEYSTREAM_LEN: u64 = 274877906880;

/// The keystream of ChaCha20 with 20 rounds for a key of 32 bytes and a
/// nonce of 12 bytes, from the block counter zero on.
pub uninterp spec fn chacha20_keystream(key: Seq<u8>, nonce: Seq<u8>) -> Seq<u8>;

/// `ChaCha20::new`, `StreamCipherSeek::seek` and
/// `StreamCipher::apply_keystream` of the crates `chacha20` and `cipher`:
/// the `len` bytes of the keystream for the key and the nonce that start
/// at the place `pos`. The keystream depends on the key and the nonce
/// alone, and ends when the block counter is used up.
#[verifier::external_body]
fn keystream_at(key: &[u8], nonce: &[u8], pos: u64, len: usize) -> (r: Vec<u8>)
    requires
        key@.len() == 32,
        nonce@.len() == 12,
        pos + len <= keystream_len(),
    ensures
        r@.len() == len,
        forall|i: int| 0 <= i < len ==> r@[i] == chacha20_keystream(key@, nonce@)[pos + i],
{
    let mut cipher = ChaCha20::new(key.into(), nonce.into());
    cipher.seek(pos);
    let mut out = vec![0u8; len];
    cipher.apply_keystream(&mut out);
    out
}

/// Each byte of `data` combined by exclusive or with the byte of `stream`
/// at the same place.
pub open spec fn xor_bytes(data: Seq<u8>, stream: Seq<u8>) -> Seq<u8> {
    Seq::new(data.len(), |i: int| data[i] ^ stream[i])
}

/// Encrypting twice with the same keystream gives the plain bytes again:
/// what was written through the wrapper is read back through it.
pub proof fn law_cipher_round_trip(data: Seq<u8>, stream: Seq<u8>)
    requires
        data.len() <= stream.len(),
    ensures
        xor_bytes(xor_bytes(data, stream), stream) == data,
{
    let once = xor_bytes(data, stream);
    let twice = xor_bytes(once, stream);
    assert forall|i: int| 0 <= i < data.len() implies twice[i] == data[i] by {
        let a = data[i];
        let b = stream[i];
        assert((a ^ b) ^ b == a) by (bit_vector);
    }
    assert(twice =~= data);
}

/// What reaches the backend differs from the plain bytes as soon as one
/// byte of the keystream that is used is not zero.
pub proof fn law_ciphertext_differs(data: Seq<u8>, stream: Seq<u8>, i: int)
    requires
        data.len() <= stream.len(),
        0 <= i < data.len(),
        stream[i] != 0,
    ensures
        xor_bytes(data, stream) != data,
{
    let a = data[i];
    let b = stream[i];
    assert(b != 0 ==> (a ^ b) != a) by (bit_vector);
    assert(xor_bytes(data, stream)[i] != data[i]);
}

/// Why the wrapper could not be made.
#[derive(Clone, Copy, Debug, PartialEq, Eq, Structural)]
pub enum EncryptionError {
    /// The key is not 32 bytes long, or the nonce not 12.
    FromSlice,
}

/// A backend with the key and the nonce that encrypt its content.
pub struct EncryptionWrapper<F> {
    passphrase: Vec<u8>,
    nonce: Vec<u8>,
    fs: F,
}

/// The cipher of one open file: the key and the nonce, and how much of
/// their keystream the file has used.
pub struct EncryptionFileWrapper {
    passphrase: Vec<u8>,
    nonce: Vec<u8>,
    position: u64,
}

impl EncryptionFileWrapper {
    /// The key and the nonce have their lengths, and no more keystream is
    /// used than there is.
    #[verifier::type_invariant]
    spec fn in_range(self) -> bool {
        self.passphrase@.len() == 32 && self.nonce@.len() == 12 && self.position
            <= keystream_len()
    }

    /// The keystream of the key and the nonce of the file.
    pub closed spec fn stream(&self) -> Seq<u8> {
        chacha20_keystream(self.passphrase@, self.nonce@)
    }

    /// How many bytes of the keystream the file has used.
    pub closed spec fn used(&self) -> nat {
        self.position as nat
    }

    /// The keystream that the file has still to use.
    pub open spec fn left(&self) -> Seq<u8> {
        Seq::new(
            (keystream_len() - self.used()) as nat,
            |i: int| self.stream()[self.used() + i],
        )
    }

    fn apply(&mut self, data: &[u8]) -> (r: Result<Vec<u8>, FsError>)
        ensures
            final(self).stream() == old(self).stream(),
            data@.len() <= old(self).left().len() ==> r is Ok && r->Ok_0@ == xor_bytes(
                data@,
                old(self).left(),
            ) && final(self).used() == old(self).used() + data@.len(),
            data@.len() > old(self).left().len() ==> r == Err::<Vec<u8>, FsError>(
                FsError::GeneralFailure,
            ) && final(self).used() == old(self).used(),
            old(self).used() <= keystream_len(),
    {
        proof {
            use_type_invariant(&*self);
        }
        let room: u64 = KEYSTREAM_LEN - self.position;
        if data.len() as u64 > room {
            return Err(FsError::GeneralFailure);
        }
        let stream = keystream_at(
            self.passphrase.as_slice(),
            self.nonce.as_slice(),
            self.position,
            data.len(),
        );
        let ghost left = self.left();
        let mut out: Vec<u8> = Vec::new();
        let mut i: usize = 0;
        while i < data.len()
            invariant
                i <= data.len(),
                stream@.len() == data@.len(),
                out@.len() == i,
                forall|j: int| 0 <= j < i ==> out@[j] == data@[j] ^ stream@[j],
            decreases data.len() - i,
        {
            out.push(data[i] ^ stream[i]);
            i += 1;
        }
        assert(out@ =~= xor_bytes(data@, left)) by {
            assert forall|j: int| 0 <= j < data@.len() implies stream@[j] == left[j] by {}
        }
        self.position = self.position + data.len() as u64;
        Ok(out)
    }

    /// Encrypts what is to be written: the result is handed to the file
    /// of the backend. The input is not changed. Once the keystream is
    /// used up nothing more can be written.
    pub fn write_bytes(&mut self, buf: &[u8]) -> (r: Result<Vec<u8>, FsError>)
        ensures
            final(self).stream() == old(self).stream(),
            buf@.len() <= old(self).left().len() ==> r is Ok && r->Ok_0@ == xor_bytes(
                buf@,
                old(self).left(),
            ) && final(self).used() == old(self).used() + buf@.len(),
            buf@.len() > old(self).left().len() ==> r == Err::<Vec<u8>, FsError>(
                FsError::GeneralFailure,
            ) && final(self).used() == old(self).used(),
    {
        self.apply(buf)
    }

    /// As `write_bytes`.
    pub fn write_buf(&mut self, buf: &[u8]) -> (r: Result<Vec<u8>, FsError>)
        ensures
            final(self).stream() == old(self).stream(),
            buf@.len() <= old(self).left().len() ==> r is Ok && r->Ok_0@ == xor_bytes(
                buf@,
                old(self).left(),
            ) && final(self).used() == old(self).used() + buf@.len(),
            buf@.len() > old(self).left().len() ==> r == Err::<Vec<u8>, FsError>(
                FsError::GeneralFailure,
            ) && final(self).used() == old(self).used(),
    {
        self.apply(buf)
    }

    /// Decrypts what the file of the backend gave to a read.
    pub fn read_bytes(&mut self, data: Vec<u8>) -> (r: Result<Vec<u8>, FsError>)
        ensures
            final(self).stream() == old(self).stream(),
            data@.len() <= old(self).left().len() ==> r is Ok && r->Ok_0@ == xor_bytes(
                data@,
                old(self).left(),
            ) && final(self).used() == old(self).used() + data@.len(),
            data@.len() > old(self).left().len() ==> r == Err::<Vec<u8>, FsError>(
                FsError::GeneralFailure,
            ) && final(self).used() == old(self).used(),
    {
        self.apply(data.as_slice())
    }
}

impl<F> EncryptionWrapper<F> {
    /// The key and the nonce have their lengths.
    #[verifier::type_invariant]
    spec fn lengths(self) -> bool {
        self.passphrase@.len() == 32 && self.nonce@.len() == 12
    }

    /// The key.
    pub closed spec fn key(&self) -> Seq<u8> {
        self.passphrase@
    }

    /// The nonce.
    pub closed spec fn nonce(&self) -> Seq<u8> {
        self.nonce@
    }

    /// The wrapped backend.
    pub closed spec fn backend(&self) -> F {
        self.fs
    }

    /// Wraps `fs`. The key must be 32 bytes long and the nonce 12.
    pub fn new(passphrase: &[u8], nonce: &[u8], fs: F) -> (r: Result<Self, EncryptionError>)
        ensures
            passphrase@.len() == 32 && nonce@.len() == 12 ==> r is Ok && r->Ok_0.key()
                == passphrase@ && r->Ok_0.nonce() == nonce@ && r->Ok_0.backend() == fs,
            !(passphrase@.len() == 32 && nonce@.len() == 12) ==> r is Err && r->Err_0
                == EncryptionError::FromSlice,
    {
        if passphrase.len() != KEY_LEN || nonce.len() != NONCE_LEN {
            return Err(EncryptionError::FromSlice);
        }
        let key = vstd::slice::slice_to_vec(passphrase);
        let iv = vstd::slice::slice_to_vec(nonce);
        Ok(EncryptionWrapper { passphrase: key, nonce: iv, fs })
    }

    /// The wrapped backend: every operation but reading and writing
    /// passes through to it.
    pub fn inner(&self) -> (r: &F)
        ensures
            *r == self.backend(),
    {
        &self.fs
    }

    /// The cipher for a file that the backend has opened: fresh, at the
    /// start of the keystream of the key and the nonce.
    pub fn open(&self) -> (r: EncryptionFileWrapper)
        ensures
            r.stream() == chacha20_keystream(self.key(), self.nonce()),
            r.used() == 0,
    {
        proof {
            use_type_invariant(self);
        }
        EncryptionFileWrapper {
            passphrase: crate::text::copy_bytes(&self.passphrase),
            nonce: crate::text::copy_bytes(&self.nonce),
            position: 0,
        }
    }
}

} // verus!
