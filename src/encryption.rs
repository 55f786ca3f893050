//! Authenticated encryption with AES-256-GCM: whole buffers and framed streams.
use aes_gcm::aead::{Aead, KeyInit};
use aes_gcm::{Aes256Gcm, Key, Nonce};
use vstd::prelude::*;
use vstd::bytes::{
    lemma_auto_spec_u32_to_from_le_bytes, spec_u32_from_le_bytes, spec_u32_to_le_bytes, u32_from_le_bytes,
    u32_to_le_bytes,
};
use vstd::slice::{slice_subrange, slice_to_vec};

use crate::random::random_bytes;
use crate::wipe::wipe_key_bytes;

verus! {

/// Failures of the encryption layer. None of them is worth retrying.
#[derive(Debug, Clone, Copy, PartialEq, Eq, Structural)]
pub enum CryptoError {
    InvalidKeySize,
    InvalidNonce,
    EncryptionFailed,
    DecryptionFailed,
    IoError,
    InvalidChunk,
}

/// AES-256-GCM with no associated data: the ciphertext of `plaintext` under
/// `key` and `nonce`, followed by the 16-byte tag.
pub uninterp spec fn aes_gcm_seal(key: Seq<u8>, nonce: Seq<u8>, plaintext: Seq<u8>) -> Seq<u8>;

/// AES-256-GCM decryption with no associated data: the plaintext when the tag
/// at the end of `sealed` authenticates it under `key` and `nonce`.
pub uninterp spec fn aes_gcm_open(key: Seq<u8>, nonce: Seq<u8>, sealed: Seq<u8>) -> Option<Seq<u8>>;

pub const KEY_LEN: usize = 32;

pub const NONCE_LEN: usize = 12;

pub const TAG_LEN: usize = 16;

/// Longest plaintext that AES-GCM accepts, in bytes.
pub const MAX_PLAINTEXT_LEN: u64 = 0x10_0000_0000;

/// Relies on `Aead::encrypt` of `aes_gcm::Aes256Gcm`, keyed with `key`: it fails
/// only on a plaintext longer than `MAX_PLAINTEXT_LEN`, appends the 16-byte tag,
/// and `Aead::decrypt` gives the plaintext back from what it returns. Decryption
/// recomputes the tag of the ciphertext and compares it, so no other tag is
/// accepted with that ciphertext.
#[verifier::external_body]
pub(crate) fn gcm_seal(key: &[u8; 32], nonce: &[u8], plaintext: &[u8]) -> (r: Option<Vec<u8>>)
    requires
        nonce@.len() == NONCE_LEN,
    ensures
        r is Some <==> plaintext@.len() <= MAX_PLAINTEXT_LEN,
        r matches Some(c) ==> {
            &&& c@ == aes_gcm_seal(key@, nonce@, plaintext@)
            &&& c@.len() == plaintext@.len() + TAG_LEN
            &&& aes_gcm_open(key@, nonce@, c@) == Some(plaintext@)
            &&& forall|t: Seq<u8>|
                t.len() == TAG_LEN && t != c@.subrange(plaintext@.len() as int, c@.len() as int) ==> #[trigger] aes_gcm_open(
                    key@,
                    nonce@,
                    c@.subrange(0, plaintext@.len() as int) + t,
                ) is None
        },
{
    let cipher = Aes256Gcm::new(Key::<Aes256Gcm>::from_slice(key));
    cipher.encrypt(Nonce::from_slice(nonce), plaintext).ok()
}

/// Relies on `Aead::decrypt` of `aes_gcm::Aes256Gcm`, keyed with `key`.
#[verifier::external_body]
pub(crate) fn gcm_open(key: &[u8; 32], nonce: &[u8], sealed: &[u8]) -> (r: Option<Vec<u8>>)
    requires
        nonce@.len() == NONCE_LEN,
    ensures
        match r {
            Some(p) => aes_gcm_open(key@, nonce@, sealed@) == Some(p@),
            None => aes_gcm_open(key@, nonce@, sealed@) is None,
        },
{
    let cipher = Aes256Gcm::new(Key::<Aes256Gcm>::from_slice(key));
    cipher.decrypt(Nonce::from_slice(nonce), sealed).ok()
}

/// A 256-bit key, wiped when it is dropped.
#[derive(Clone)]
pub struct EncryptionKey {
    key: [u8; 32],
}

impl EncryptionKey {
    pub closed spec fn bytes(&self) -> Seq<u8> {
        self.key@
    }

    pub fn new(key: [u8; 32]) -> (r: Self)
        ensures
            r.bytes() == key@,
    {
        EncryptionKey { key }
    }

    /// A key drawn from the operating system's secure generator.
    pub fn generate() -> (r: Self)
        ensures
            r.bytes().len() == KEY_LEN,
    {
        let bytes = random_bytes(KEY_LEN);
        let key = copy_key(&bytes);
        EncryptionKey { key }
    }

    pub fn from_slice(slice: &[u8]) -> (r: Result<Self, CryptoError>)
        ensures
            slice@.len() == KEY_LEN ==> (r matches Ok(k) && k.bytes() == slice@),
            slice@.len() != KEY_LEN ==> r == Err::<Self, CryptoError>(CryptoError::InvalidKeySize),
    {
        if slice.len() != KEY_LEN {
            return Err(CryptoError::InvalidKeySize);
        }
        let key = copy_key(slice);
        Ok(EncryptionKey { key })
    }

    pub fn as_bytes(&self) -> (r: &[u8])
        ensures
            r@ == self.bytes(),
    {
        self.key.as_slice()
    }

    pub(crate) fn as_array(&self) -> (r: &[u8; 32])
        ensures
            r@ == self.bytes(),
    {
        &self.key
    }

    /// Overwrites the key with zeros.
    pub fn zeroize(&mut self)
        ensures
            final(self).bytes() == Seq::new(32, |i: int| 0u8),
    {
        wipe_key_bytes(&mut self.key);
    }
}

impl Drop for EncryptionKey {
    fn drop(&mut self)
        opens_invariants none
        no_unwind
    {
        wipe_key_bytes(&mut self.key);
    }
}

/// Copies 32 bytes into an array.
pub fn copy_key(bytes: &[u8]) -> (r: [u8; 32])
    requires
        bytes@.len() == KEY_LEN,
    ensures
        r@ == bytes@,
{
    let mut key = [0u8; 32];
    let mut i: usize = 0;
    while i < KEY_LEN
        invariant
            i <= KEY_LEN,
            bytes@.len() == KEY_LEN,
            key@.len() == KEY_LEN,
            forall|j: int| 0 <= j < i ==> key@[j] == bytes@[j],
        decreases KEY_LEN - i,
    {
        key[i] = bytes[i];
        i = i + 1;
    }
    proof {
        assert(key@ =~= bytes@);
    }
    key
}


/// One authenticated-encryption unit: ciphertext, nonce and tag.
#[derive(Debug, Clone)]
pub struct EncryptedData {
    pub data: Vec<u8>,
    pub nonce: Vec<u8>,
    pub tag: Vec<u8>,
}

/// `data`, `nonce` and `tag` are what sealing `plaintext` under `key` gives.
pub open spec fn seals(key: Seq<u8>, data: Seq<u8>, nonce: Seq<u8>, tag: Seq<u8>, plaintext: Seq<u8>) -> bool {
    &&& nonce.len() == NONCE_LEN
    &&& tag.len() == TAG_LEN
    &&& data.len() == plaintext.len()
    &&& data + tag == aes_gcm_seal(key, nonce, plaintext)
    &&& aes_gcm_open(key, nonce, data + tag) == Some(plaintext)
    &&& forall|t: Seq<u8>| t.len() == TAG_LEN && t != tag ==> #[trigger] aes_gcm_open(key, nonce, data + t) is None
}

/// What decrypting `data`, `nonce` and `tag` under `key` gives.
pub open spec fn decryption(key: Seq<u8>, data: Seq<u8>, nonce: Seq<u8>, tag: Seq<u8>) -> Result<
    Seq<u8>,
    CryptoError,
> {
    if nonce.len() != NONCE_LEN {
        Err(CryptoError::InvalidNonce)
    } else {
        match aes_gcm_open(key, nonce, data + tag) {
            Some(p) => Ok(p),
            None => Err(CryptoError::DecryptionFailed),
        }
    }
}

/// Encryption round trip: what `encrypt` produced from a plaintext decrypts,
/// under the same key, to that plaintext.
pub proof fn lemma_decrypt_after_encrypt(
    key: Seq<u8>,
    data: Seq<u8>,
    nonce: Seq<u8>,
    tag: Seq<u8>,
    plaintext: Seq<u8>,
)
    requires
        seals(key, data, nonce, tag, plaintext),
    ensures
        decryption(key, data, nonce, tag) == Ok::<Seq<u8>, CryptoError>(plaintext),
{
}

/// Tampering with the tag: what `encrypt` produced, with any other 16-byte
/// tag in place of its own, fails to decrypt with `DecryptionFailed`.
pub proof fn lemma_other_tag_rejected(
    key: Seq<u8>,
    data: Seq<u8>,
    nonce: Seq<u8>,
    tag: Seq<u8>,
    plaintext: Seq<u8>,
    other_tag: Seq<u8>,
)
    requires
        seals(key, data, nonce, tag, plaintext),
        other_tag.len() == TAG_LEN,
        other_tag != tag,
    ensures
        decryption(key, data, nonce, other_tag) == Err::<Seq<u8>, CryptoError>(CryptoError::DecryptionFailed),
{
    assert(aes_gcm_open(key, nonce, data + other_tag) is None);
}

/// Length of a stream frame's header: nonce and tag.
pub const FRAME_OVERHEAD: usize = 28;

/// Largest chunk whose frame length still fits the 32-bit length prefix.
pub const MAX_STREAM_CHUNK: usize = 0xFFFF_FFE3;

/// A stream frame: little-endian 32-bit length of what follows, nonce, tag,
/// ciphertext.
pub open spec fn frame(data: Seq<u8>, nonce: Seq<u8>, tag: Seq<u8>) -> Seq<u8> {
    spec_u32_to_le_bytes((data.len() + nonce.len() + tag.len()) as u32) + nonce + tag + data
}

/// `out` is a sequence of frames, one per chunk of `input` of `chunk_size`
/// bytes (the last possibly shorter), each sealing its chunk under `key`
/// with a nonce of its own.
pub open spec fn encrypts_stream(key: Seq<u8>, input: Seq<u8>, chunk_size: int, out: Seq<u8>) -> bool
    decreases input.len(),
{
    if chunk_size <= 0 || input.len() == 0 {
        out.len() == 0
    } else {
        let n = if input.len() < chunk_size {
            input.len() as int
        } else {
            chunk_size
        };
        exists|data: Seq<u8>, nonce: Seq<u8>, tag: Seq<u8>|
            {
                let f = #[trigger] frame(data, nonce, tag);
                &&& seals(key, data, nonce, tag, input.subrange(0, n))
                &&& f.len() <= out.len()
                &&& out.subrange(0, f.len() as int) == f
                &&& encrypts_stream(key, input.subrange(n, input.len() as int), chunk_size, out.subrange(f.len() as int, out.len() as int))
            }
    }
}

/// What reading the frames of `input` in order and decrypting each under
/// `key` gives. Input that ends before a full length prefix ends the stream;
/// a frame declaring fewer bytes than nonce and tag is an invalid chunk,
/// whatever follows it; a frame cut short is an I/O fault.
pub open spec fn stream_decryption(key: Seq<u8>, input: Seq<u8>) -> Result<Seq<u8>, CryptoError>
    decreases input.len(),
{
    if input.len() < 4 {
        Ok(Seq::empty())
    } else {
        let len = spec_u32_from_le_bytes(input.subrange(0, 4)) as int;
        if len < FRAME_OVERHEAD {
            Err(CryptoError::InvalidChunk)
        } else if input.len() - 4 < len {
            Err(CryptoError::IoError)
        } else {
            let body = input.subrange(4, 4 + len);
            match decryption(key, body.subrange(28, len), body.subrange(0, 12), body.subrange(12, 28)) {
                Err(e) => Err(e),
                Ok(p) => match stream_decryption(key, input.subrange(4 + len, input.len() as int)) {
                    Ok(rest) => Ok(p + rest),
                    Err(e) => Err(e),
                },
            }
        }
    }
}

/// Streaming round trip: decrypting the frames that `encrypt_stream` wrote
/// gives back the input, the empty input and inputs of any length included.
pub proof fn lemma_stream_round_trip(key: Seq<u8>, input: Seq<u8>, chunk_size: int, out: Seq<u8>)
    requires
        0 < chunk_size <= MAX_STREAM_CHUNK,
        encrypts_stream(key, input, chunk_size, out),
    ensures
        stream_decryption(key, out) == Ok::<Seq<u8>, CryptoError>(input),
    decreases input.len(),
{
    if input.len() == 0 {
        assert(input =~= Seq::<u8>::empty());
    } else {
        let n = if input.len() < chunk_size {
            input.len() as int
        } else {
            chunk_size
        };
        let (data, nonce, tag) = choose|data: Seq<u8>, nonce: Seq<u8>, tag: Seq<u8>|
            {
                let f = #[trigger] frame(data, nonce, tag);
                &&& seals(key, data, nonce, tag, input.subrange(0, n))
                &&& f.len() <= out.len()
                &&& out.subrange(0, f.len() as int) == f
                &&& encrypts_stream(key, input.subrange(n, input.len() as int), chunk_size, out.subrange(f.len() as int, out.len() as int))
            };
        let f = frame(data, nonce, tag);
        let rest_in = input.subrange(n, input.len() as int);
        let rest_out = out.subrange(f.len() as int, out.len() as int);
        lemma_stream_round_trip(key, rest_in, chunk_size, rest_out);
        lemma_auto_spec_u32_to_from_le_bytes();
        let len = (data.len() + nonce.len() + tag.len()) as int;
        assert(out.subrange(0, 4) =~= spec_u32_to_le_bytes(len as u32)) by {
            assert(f.subrange(0, 4) =~= spec_u32_to_le_bytes(len as u32));
            assert(out.subrange(0, 4) =~= f.subrange(0, 4));
        }
        let body = out.subrange(4, 4 + len);
        assert(spec_u32_to_le_bytes(len as u32).len() == 4);
        assert(f.len() == 4 + len);
        assert(body =~= f.subrange(4, 4 + len));
        assert(f.subrange(4, 4 + len) =~= nonce + tag + data);
        assert(body.subrange(0, 12) =~= nonce);
        assert(body.subrange(12, 28) =~= tag);
        assert(body.subrange(28, len) =~= data);
        assert(out.subrange(4 + len, out.len() as int) =~= rest_out);
        assert(input.subrange(0, n) + rest_in =~= input);
    }
}

/// Whole-buffer and streaming authenticated encryption under one key.
pub struct FileEncryption {
    key: EncryptionKey,
}

impl FileEncryption {
    pub closed spec fn key_bytes(&self) -> Seq<u8> {
        self.key.bytes()
    }

    pub fn new(key: &EncryptionKey) -> (r: Self)
        ensures
            r.key_bytes() == key.bytes(),
    {
        FileEncryption { key: EncryptionKey { key: key.key } }
    }

    /// Encrypts under a fresh random nonce. Fails only on a plaintext longer
    /// than AES-GCM accepts.
    pub fn encrypt(&self, data: &[u8]) -> (r: Result<EncryptedData, CryptoError>)
        ensures
            r is Ok <==> data@.len() <= MAX_PLAINTEXT_LEN,
            r matches Ok(e) ==> seals(self.key_bytes(), e.data@, e.nonce@, e.tag@, data@),
            r matches Err(e) ==> e == CryptoError::EncryptionFailed,
    {
        let nonce = random_bytes(NONCE_LEN);
        match gcm_seal(&self.key.key, nonce.as_slice(), data) {
            None => Err(CryptoError::EncryptionFailed),
            Some(sealed) => {
                let tag_start = sealed.len() - TAG_LEN;
                let body = slice_to_vec(slice_subrange(sealed.as_slice(), 0, tag_start));
                let tag = slice_to_vec(slice_subrange(sealed.as_slice(), tag_start, sealed.len()));
                proof {
                    assert(body@ + tag@ =~= sealed@);
                    assert(body@ =~= sealed@.subrange(0, data@.len() as int));
                    assert(tag@ =~= sealed@.subrange(data@.len() as int, sealed@.len() as int));
                }
                Ok(EncryptedData { data: body, nonce, tag })
            },
        }
    }

    /// Decrypts one unit. Fails with `InvalidNonce` on a nonce that is not 12
    /// bytes, and with `DecryptionFailed` when the tag does not authenticate,
    /// whether from tampering or a wrong key.
    pub fn decrypt(&self, encrypted: &EncryptedData) -> (r: Result<Vec<u8>, CryptoError>)
        ensures
            match r {
                Ok(p) => decryption(self.key_bytes(), encrypted.data@, encrypted.nonce@, encrypted.tag@) == Ok::<
                    Seq<u8>,
                    CryptoError,
                >(p@),
                Err(e) => decryption(self.key_bytes(), encrypted.data@, encrypted.nonce@, encrypted.tag@) == Err::<
                    Seq<u8>,
                    CryptoError,
                >(e),
            },
    {
        if encrypted.nonce.len() != NONCE_LEN {
            return Err(CryptoError::InvalidNonce);
        }
        let mut sealed = encrypted.data.clone();
        sealed.extend_from_slice(encrypted.tag.as_slice());
        proof {
            assert(sealed@ =~= encrypted.data@ + encrypted.tag@);
        }
        match gcm_open(&self.key.key, encrypted.nonce.as_slice(), sealed.as_slice()) {
            Some(p) => Ok(p),
            None => Err(CryptoError::DecryptionFailed),
        }
    }

    /// Splits `input` into chunks of `chunk_size` bytes, encrypts each under a
    /// nonce of its own, and writes each as a frame: 32-bit little-endian
    /// length, nonce, tag, ciphertext. A chunk size of zero writes nothing.
    pub fn encrypt_stream(&self, input: &[u8], chunk_size: usize) -> (r: Vec<u8>)
        requires
            chunk_size <= MAX_STREAM_CHUNK,
        ensures
            encrypts_stream(self.key_bytes(), input@, chunk_size as int, r@),
    {
        let mut out: Vec<u8> = Vec::new();
        if chunk_size == 0 {
            return out;
        }
        let mut pos: usize = 0;
        proof {
            assert forall|rest: Seq<u8>|
                encrypts_stream(self.key_bytes(), input@.subrange(0, input@.len() as int), chunk_size as int, rest)
                    implies encrypts_stream(self.key_bytes(), input@, chunk_size as int, out@ + rest) by {
                assert(input@.subrange(0, input@.len() as int) =~= input@);
                assert(out@ + rest =~= rest);
            }
        }
        while pos < input.len()
            invariant
                0 < chunk_size <= MAX_STREAM_CHUNK,
                pos <= input@.len(),
                forall|rest: Seq<u8>|
                    encrypts_stream(self.key_bytes(), input@.subrange(pos as int, input@.len() as int), chunk_size as int, rest)
                        ==> encrypts_stream(self.key_bytes(), input@, chunk_size as int, out@ + rest),
            decreases input@.len() - pos,
        {
            let remaining = input.len() - pos;
            let size = if remaining < chunk_size { remaining } else { chunk_size };
            let chunk = slice_subrange(input, pos, pos + size);
            let encrypted = match self.encrypt(chunk) {
                Ok(e) => e,
                Err(_) => {
                    proof {
                        assert(false);
                    }
                    return out;
                },
            };
            let frame_len = (encrypted.data.len() + encrypted.nonce.len() + encrypted.tag.len()) as u32;
            let ghost before = out@;
            out.extend_from_slice(u32_to_le_bytes(frame_len).as_slice());
            out.extend_from_slice(encrypted.nonce.as_slice());
            out.extend_from_slice(encrypted.tag.as_slice());
            out.extend_from_slice(encrypted.data.as_slice());
            proof {
                let f = frame(encrypted.data@, encrypted.nonce@, encrypted.tag@);
                assert(out@ =~= before + f);
                let tail = input@.subrange(pos as int, input@.len() as int);
                let next = input@.subrange(pos + size, input@.len() as int);
                assert(tail.subrange(0, size as int) =~= chunk@);
                assert(tail.subrange(size as int, tail.len() as int) =~= next);
                assert forall|rest: Seq<u8>|
                    encrypts_stream(self.key_bytes(), next, chunk_size as int, rest)
                        implies encrypts_stream(self.key_bytes(), input@, chunk_size as int, out@ + rest) by {
                    let whole = f + rest;
                    assert(whole.subrange(0, f.len() as int) =~= f);
                    assert(whole.subrange(f.len() as int, whole.len() as int) =~= rest);
                    assert(encrypts_stream(self.key_bytes(), tail, chunk_size as int, whole));
                    assert(before + whole =~= out@ + rest);
                }
            }
            pos = pos + size;
        }
        proof {
            assert(input@.subrange(pos as int, input@.len() as int) =~= Seq::<u8>::empty());
            assert(encrypts_stream(self.key_bytes(), Seq::<u8>::empty(), chunk_size as int, Seq::<u8>::empty()));
            assert(out@ + Seq::<u8>::empty() =~= out@);
        }
        out
    }

    /// Reads frames until the input is exhausted and decrypts each in turn.
    pub fn decrypt_stream(&self, input: &[u8]) -> (r: Result<Vec<u8>, CryptoError>)
        ensures
            match r {
                Ok(p) => stream_decryption(self.key_bytes(), input@) == Ok::<Seq<u8>, CryptoError>(p@),
                Err(e) => stream_decryption(self.key_bytes(), input@) == Err::<Seq<u8>, CryptoError>(e),
            },
    {
        let mut out: Vec<u8> = Vec::new();
        let mut pos: usize = 0;
        let ghost key = self.key_bytes();
        proof {
            assert(input@.subrange(0, input@.len() as int) =~= input@);
            match stream_decryption(key, input@) {
                Ok(rest) => assert(out@ + rest =~= rest),
                Err(_) => {},
            }
        }
        loop
            invariant
                key == self.key_bytes(),
                pos <= input@.len(),
                stream_decryption(key, input@) == match stream_decryption(key, input@.subrange(pos as int, input@.len() as int)) {
                    Ok(rest) => Ok(out@ + rest),
                    Err(e) => Err(e),
                },
            decreases input@.len() - pos,
        {
            let ghost tail = input@.subrange(pos as int, input@.len() as int);
            if input.len() - pos < 4 {
                proof {
                    assert(out@ + Seq::<u8>::empty() =~= out@);
                }
                return Ok(out);
            }
            let len = u32_from_le_bytes(slice_subrange(input, pos, pos + 4)) as usize;
            proof {
                assert(tail.subrange(0, 4) =~= input@.subrange(pos as int, pos + 4));
            }
            if len < FRAME_OVERHEAD {
                return Err(CryptoError::InvalidChunk);
            }
            if input.len() - pos - 4 < len {
                return Err(CryptoError::IoError);
            }
            let start = pos + 4;
            let encrypted = EncryptedData {
                nonce: slice_to_vec(slice_subrange(input, start, start + 12)),
                tag: slice_to_vec(slice_subrange(input, start + 12, start + 28)),
                data: slice_to_vec(slice_subrange(input, start + 28, start + len)),
            };
            proof {
                let body = tail.subrange(4, 4 + len);
                assert(body.subrange(0, 12) =~= encrypted.nonce@);
                assert(body.subrange(12, 28) =~= encrypted.tag@);
                assert(body.subrange(28, len as int) =~= encrypted.data@);
                assert(tail.subrange(4 + len, tail.len() as int) =~= input@.subrange(start + len, input@.len() as int));
            }
            let plain = self.decrypt(&encrypted)?;
            let ghost before = out@;
            out.extend_from_slice(plain.as_slice());
            proof {
                assert(out@ =~= before + plain@);
                match stream_decryption(key, input@.subrange(start + len, input@.len() as int)) {
                    Ok(rest) => assert(before + (plain@ + rest) =~= out@ + rest),
                    Err(_) => {},
                }
            }
            pos = start + len;
        }
    }
}

} // verus!
