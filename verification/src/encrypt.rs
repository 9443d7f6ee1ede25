//! Encryption of blocks and values: AES in CTR mode with a 64-bit
//! big-endian counter, keyed by 16, 24 or 32 bytes, with a 16-byte IV.
//! Encrypting twice with the same key and IV gives the data back.
use vstd::prelude::*;
use aes::cipher::{KeyIvInit, StreamCipher};

verus! {

/// The AES block size, and the size of an IV.
pub const BLOCK_SIZE: usize = 16;

/// Error of a key or IV of the wrong length.
#[verifier::external_type_specification]
#[verifier::external_body]
pub struct ExInvalidLength(aes::cipher::InvalidLength);

/// Error of a keystream that would run out.
#[verifier::external_type_specification]
#[verifier::external_body]
pub struct ExStreamCipherError(aes::cipher::StreamCipherError);

/// An initialization vector of one AES block.
#[derive(Debug, Copy, Clone)]
pub struct IV {
    iv: [u8; 16],
}

impl View for IV {
    type V = Seq<u8>;

    closed spec fn view(&self) -> Seq<u8> {
        self.iv@
    }
}

/// Fills sixteen bytes from the thread-local random generator of `rand`
/// (`thread_rng().fill_bytes`). Nothing is claimed of the bytes.
#[verifier::external_body]
pub fn random_iv() -> [u8; 16] {
    let mut key = [0u8; 16];
    rand::RngCore::fill_bytes(&mut rand::thread_rng(), &mut key);
    key
}

impl IV {
    /// An IV of zero bytes.
    pub fn new() -> (r: Self)
        ensures
            r@ == Seq::new(16, |i: int| 0u8),
    {
        let r = IV { iv: [0u8; 16] };
        proof {
            assert(r@ =~= Seq::new(16, |i: int| 0u8));
        }
        r
    }

    /// A random IV.
    pub fn random() -> (r: Self)
        ensures
            r@.len() == BLOCK_SIZE,
    {
        IV { iv: random_iv() }
    }

    /// The bytes of the IV.
    pub fn as_slice(&self) -> (r: &[u8])
        ensures
            r@ == self@,
            r@.len() == BLOCK_SIZE,
    {
        self.iv.as_slice()
    }
}

impl Default for IV {
    fn default() -> (r: Self)
        ensures
            r@ == Seq::new(16, |i: int| 0u8),
    {
        Self::new()
    }
}

/// The encryption algorithms.
#[derive(Copy, Clone, Debug, PartialEq, Eq, Structural)]
pub enum EncryptionAlgorithm {
    /// No encryption (named `None` in the protobuf definition).
    Unencrypted,
    Aes,
}

impl Default for EncryptionAlgorithm {
    fn default() -> (r: Self)
        ensures
            r == EncryptionAlgorithm::Unencrypted,
    {
        EncryptionAlgorithm::Unencrypted
    }
}

/// The protobuf number of an algorithm.
pub open spec fn encryption_algorithm_number(a: EncryptionAlgorithm) -> i32 {
    match a {
        EncryptionAlgorithm::Unencrypted => 0,
        EncryptionAlgorithm::Aes => 1,
    }
}

impl EncryptionAlgorithm {
    /// Whether no encryption is used.
    pub fn is_none(&self) -> (r: bool)
        ensures
            r == (*self == EncryptionAlgorithm::Unencrypted),
    {
        match self {
            EncryptionAlgorithm::Aes => false,
            EncryptionAlgorithm::Unencrypted => true,
        }
    }

    /// Whether encryption is used.
    pub fn is_some(&self) -> (r: bool)
        ensures
            r == (*self == EncryptionAlgorithm::Aes),
    {
        match self {
            EncryptionAlgorithm::Aes => true,
            EncryptionAlgorithm::Unencrypted => false,
        }
    }

    /// The length of the IV the algorithm needs.
    pub fn iv_length(&self) -> (r: usize)
        ensures
            r == (if *self == EncryptionAlgorithm::Aes { BLOCK_SIZE } else { 0 }),
    {
        match self {
            EncryptionAlgorithm::Aes => BLOCK_SIZE,
            EncryptionAlgorithm::Unencrypted => 0,
        }
    }

    /// The name of the algorithm in the protobuf definition.
    pub fn as_str_name(&self) -> (r: &'static str)
        ensures
            r@ == (match *self {
                EncryptionAlgorithm::Unencrypted => "None"@,
                EncryptionAlgorithm::Aes => "Aes"@,
            }),
    {
        match self {
            EncryptionAlgorithm::Unencrypted => "None",
            EncryptionAlgorithm::Aes => "Aes",
        }
    }

    /// The protobuf number of the algorithm.
    pub fn to_i32(&self) -> (r: i32)
        ensures
            r == encryption_algorithm_number(*self),
    {
        match self {
            EncryptionAlgorithm::Unencrypted => 0,
            EncryptionAlgorithm::Aes => 1,
        }
    }

    /// Whether `value` is the number of an algorithm.
    pub fn is_valid(value: i32) -> (r: bool)
        ensures
            r == (value == 0 || value == 1),
    {
        value == 0 || value == 1
    }

    /// The algorithm of a number, if there is one.
    pub fn from_i32(value: i32) -> (r: Option<Self>)
        ensures
            r == (if value == 0 {
                Some(EncryptionAlgorithm::Unencrypted)
            } else if value == 1 {
                Some(EncryptionAlgorithm::Aes)
            } else {
                None::<EncryptionAlgorithm>
            }),
    {
        if value == 0 {
            Some(EncryptionAlgorithm::Unencrypted)
        } else if value == 1 {
            Some(EncryptionAlgorithm::Aes)
        } else {
            None
        }
    }

    /// The algorithm of a number, [`EncryptionAlgorithm::Unencrypted`] for any
    /// number but that of AES.
    pub fn from_number(value: i64) -> (r: Self)
        ensures
            r == (if value == 1 { EncryptionAlgorithm::Aes } else { EncryptionAlgorithm::Unencrypted }),
    {
        if value == 1 {
            EncryptionAlgorithm::Aes
        } else {
            EncryptionAlgorithm::Unencrypted
        }
    }
}

/// The encryption settings: an algorithm and a secret.
#[derive(Debug)]
pub struct Encryption {
    algo: EncryptionAlgorithm,
    secret: Vec<u8>,
}

impl View for Encryption {
    type V = (EncryptionAlgorithm, Seq<u8>);

    closed spec fn view(&self) -> (EncryptionAlgorithm, Seq<u8>) {
        (self.algo, self.secret@)
    }
}

impl Clone for Encryption {
    fn clone(&self) -> (r: Self)
        ensures
            r@ == self@,
    {
        Encryption { algo: self.algo, secret: self.secret.clone() }
    }
}

impl Encryption {
    /// The size of an AES block.
    pub const BLOCK_SIZE: usize = BLOCK_SIZE;

    /// No encryption, with an empty secret.
    pub fn new() -> (r: Self)
        ensures
            r@ == (EncryptionAlgorithm::Unencrypted, Seq::<u8>::empty()),
    {
        Encryption { algo: EncryptionAlgorithm::Unencrypted, secret: Vec::new() }
    }

    /// Set the secret used to encrypt/decrypt the encrypted text.
    pub fn set_secret(self, secret: Vec<u8>) -> (r: Self)
        ensures
            r@ == (self@.0, secret@),
    {
        Encryption { algo: self.algo, secret }
    }

    /// Set the encryption algorithm to use.
    pub fn set_algorithm(self, algo: EncryptionAlgorithm) -> (r: Self)
        ensures
            r@ == (algo, self@.1),
    {
        Encryption { algo, secret: self.secret }
    }

    /// AES encryption with the given secret.
    pub fn aes(secret: Vec<u8>) -> (r: Self)
        ensures
            r@ == (EncryptionAlgorithm::Aes, secret@),
    {
        Encryption { algo: EncryptionAlgorithm::Aes, secret }
    }

    /// The algorithm.
    pub fn algorithm(&self) -> (r: EncryptionAlgorithm)
        ensures
            r == self@.0,
    {
        self.algo
    }

    /// Whether no encryption is used.
    pub fn is_none(&self) -> (r: bool)
        ensures
            r == (self@.0 == EncryptionAlgorithm::Unencrypted),
    {
        self.algo.is_none()
    }

    /// Whether encryption is used.
    pub fn is_some(&self) -> (r: bool)
        ensures
            r == (self@.0 == EncryptionAlgorithm::Aes),
    {
        self.algo.is_some()
    }

    /// The secret.
    pub fn secret(&self) -> (r: &[u8])
        ensures
            r@ == self@.1,
    {
        self.secret.as_slice()
    }

    /// A copy of the secret.
    pub fn secret_bytes(&self) -> (r: Vec<u8>)
        ensures
            r@ == self@.1,
    {
        self.secret.clone()
    }
}

/// Errors of AES encryption.
#[derive(Debug, Copy, Clone)]
pub enum AesError {
    /// The key or the IV has the wrong length for the cipher.
    InvalidLength(aes::cipher::InvalidLength),
    /// The key is not 16, 24 or 32 bytes long.
    KeySizeError(usize),
    /// The keystream would run out.
    StreamCipherError(aes::cipher::StreamCipherError),
}

/// Errors of encryption.
#[derive(Debug, Copy, Clone)]
pub enum EncryptError {
    /// AES failed.
    Aes(AesError),
    /// Source and destination differ in length.
    LengthMismatch { src: usize, dst: usize },
}

/// The AES-128-CTR keystream (64-bit big-endian counter from zero) of a
/// 16-byte key and IV, `n` bytes long.
pub uninterp spec fn aes128_ctr_keystream(key: Seq<u8>, iv: Seq<u8>, n: nat) -> Seq<u8>;

/// The AES-192-CTR keystream of a 24-byte key and a 16-byte IV.
pub uninterp spec fn aes192_ctr_keystream(key: Seq<u8>, iv: Seq<u8>, n: nat) -> Seq<u8>;

/// The AES-256-CTR keystream of a 32-byte key and a 16-byte IV.
pub uninterp spec fn aes256_ctr_keystream(key: Seq<u8>, iv: Seq<u8>, n: nat) -> Seq<u8>;

/// `data` XORed byte by byte with `ks`.
pub open spec fn xor_with(data: Seq<u8>, ks: Seq<u8>) -> Seq<u8> {
    Seq::new(data.len(), |i: int| data[i] ^ ks[i])
}

/// Calls `ctr::Ctr64BE::<aes::Aes128>::new_from_slices(key, iv)` and then
/// `try_apply_keystream(buf)`. Claims: the construction fails, leaving `buf`
/// as it is, exactly when the key is not 16 bytes or the IV not 16 bytes
/// (crypto-common checks both lengths); otherwise the keystream, which
/// starts at counter zero and has `u64::MAX` blocks left, suffices and is
/// XORed into `buf`.
#[verifier::external_body]
fn aes128_ctr_apply(buf: &mut [u8], key: &[u8], iv: &[u8]) -> (r: Result<(), AesError>)
    ensures
        key@.len() == 16 && iv@.len() == 16 ==> r is Ok && final(buf)@ == xor_with(old(buf)@, aes128_ctr_keystream(key@, iv@, old(buf)@.len())),
        !(key@.len() == 16 && iv@.len() == 16) ==> (r matches Err(AesError::InvalidLength(_)) && final(buf)@ == old(buf)@),
{
    match ctr::Ctr64BE::<aes::Aes128>::new_from_slices(key, iv) {
        Ok(mut c) => match c.try_apply_keystream(buf) {
            Ok(()) => Ok(()),
            Err(e) => Err(AesError::StreamCipherError(e)),
        },
        Err(e) => Err(AesError::InvalidLength(e)),
    }
}

/// As [`aes128_ctr_apply`], with `ctr::Ctr64BE::<aes::Aes192>` and a
/// 24-byte key.
#[verifier::external_body]
fn aes192_ctr_apply(buf: &mut [u8], key: &[u8], iv: &[u8]) -> (r: Result<(), AesError>)
    ensures
        key@.len() == 24 && iv@.len() == 16 ==> r is Ok && final(buf)@ == xor_with(old(buf)@, aes192_ctr_keystream(key@, iv@, old(buf)@.len())),
        !(key@.len() == 24 && iv@.len() == 16) ==> (r matches Err(AesError::InvalidLength(_)) && final(buf)@ == old(buf)@),
{
    match ctr::Ctr64BE::<aes::Aes192>::new_from_slices(key, iv) {
        Ok(mut c) => match c.try_apply_keystream(buf) {
            Ok(()) => Ok(()),
            Err(e) => Err(AesError::StreamCipherError(e)),
        },
        Err(e) => Err(AesError::InvalidLength(e)),
    }
}

/// As [`aes128_ctr_apply`], with `ctr::Ctr64BE::<aes::Aes256>` and a
/// 32-byte key.
#[verifier::external_body]
fn aes256_ctr_apply(buf: &mut [u8], key: &[u8], iv: &[u8]) -> (r: Result<(), AesError>)
    ensures
        key@.len() == 32 && iv@.len() == 16 ==> r is Ok && final(buf)@ == xor_with(old(buf)@, aes256_ctr_keystream(key@, iv@, old(buf)@.len())),
        !(key@.len() == 32 && iv@.len() == 16) ==> (r matches Err(AesError::InvalidLength(_)) && final(buf)@ == old(buf)@),
{
    match ctr::Ctr64BE::<aes::Aes256>::new_from_slices(key, iv) {
        Ok(mut c) => match c.try_apply_keystream(buf) {
            Ok(()) => Ok(()),
            Err(e) => Err(AesError::StreamCipherError(e)),
        },
        Err(e) => Err(AesError::InvalidLength(e)),
    }
}

/// The outcome of AES-CTR on `data`: `None` when the key is not 16, 24 or
/// 32 bytes long, or the IV is not 16 bytes; otherwise the data XORed with
/// the keystream of the key and IV.
pub open spec fn aes_ctr(data: Seq<u8>, key: Seq<u8>, iv: Seq<u8>) -> Option<Seq<u8>> {
    if iv.len() != 16 {
        None
    } else if key.len() == 16 {
        Some(xor_with(data, aes128_ctr_keystream(key, iv, data.len())))
    } else if key.len() == 24 {
        Some(xor_with(data, aes192_ctr_keystream(key, iv, data.len())))
    } else if key.len() == 32 {
        Some(xor_with(data, aes256_ctr_keystream(key, iv, data.len())))
    } else {
        None
    }
}

/// The outcome of encrypting `data` with `algo`: the data itself when no
/// encryption is used.
pub open spec fn encryption_of(data: Seq<u8>, key: Seq<u8>, iv: Seq<u8>, algo: EncryptionAlgorithm) -> Option<Seq<u8>> {
    match algo {
        EncryptionAlgorithm::Aes => aes_ctr(data, key, iv),
        EncryptionAlgorithm::Unencrypted => Some(data),
    }
}

/// The error that AES gives for a key and IV that do not fit.
pub open spec fn aes_error_fits(e: EncryptError, key: Seq<u8>) -> bool {
    if key.len() == 16 || key.len() == 24 || key.len() == 32 {
        e matches EncryptError::Aes(AesError::InvalidLength(_))
    } else {
        e == EncryptError::Aes(AesError::KeySizeError(key.len() as usize))
    }
}

fn aes_encrypt_in(dst: &mut [u8], key: &[u8], iv: &[u8]) -> (r: Result<(), EncryptError>)
    ensures
        match aes_ctr(old(dst)@, key@, iv@) {
            Some(out) => r is Ok && final(dst)@ == out,
            None => r matches Err(e) && aes_error_fits(e, key@) && final(dst)@ == old(dst)@,
        },
{
    let kl = key.len();
    let res = if kl == 16 {
        aes128_ctr_apply(dst, key, iv)
    } else if kl == 24 {
        aes192_ctr_apply(dst, key, iv)
    } else if kl == 32 {
        aes256_ctr_apply(dst, key, iv)
    } else {
        return Err(EncryptError::Aes(AesError::KeySizeError(kl)));
    };
    match res {
        Ok(()) => Ok(()),
        Err(e) => Err(EncryptError::Aes(e)),
    }
}

/// The block size of the encryption algorithm.
pub fn block_size(algo: EncryptionAlgorithm) -> (r: usize)
    ensures
        r == (if algo == EncryptionAlgorithm::Aes { BLOCK_SIZE } else { 0 }),
{
    match algo {
        EncryptionAlgorithm::Unencrypted => 0,
        EncryptionAlgorithm::Aes => BLOCK_SIZE,
    }
}

/// Encrypts `data` in place with the key and IV; without an algorithm the
/// data stays. The same call decrypts.
pub fn encrypt(data: &mut [u8], key: &[u8], iv: &[u8], algo: EncryptionAlgorithm) -> (r: Result<(), EncryptError>)
    ensures
        match encryption_of(old(data)@, key@, iv@, algo) {
            Some(out) => r is Ok && final(data)@ == out,
            None => r matches Err(e) && aes_error_fits(e, key@) && final(data)@ == old(data)@,
        },
{
    match algo {
        EncryptionAlgorithm::Aes => aes_encrypt_in(data, key, iv),
        EncryptionAlgorithm::Unencrypted => Ok(()),
    }
}

/// Encrypts `src` with the key and IV into a new vector.
pub fn encrypt_to_vec(src: &[u8], key: &[u8], iv: &[u8], algo: EncryptionAlgorithm) -> (r: Result<Vec<u8>, EncryptError>)
    ensures
        match encryption_of(src@, key@, iv@, algo) {
            Some(out) => r matches Ok(v) && v@ == out,
            None => r matches Err(e) && aes_error_fits(e, key@),
        },
{
    let mut dst = vstd::slice::slice_to_vec(src);
    match algo {
        EncryptionAlgorithm::Aes => {
            match aes_encrypt_in(dst.as_mut_slice(), key, iv) {
                Ok(()) => Ok(dst),
                Err(e) => Err(e),
            }
        },
        EncryptionAlgorithm::Unencrypted => Ok(dst),
    }
}

/// Encrypts `src` with the key and IV into `dst`, which must be as long.
pub fn encrypt_to(dst: &mut [u8], src: &[u8], key: &[u8], iv: &[u8], algo: EncryptionAlgorithm) -> (r: Result<(), EncryptError>)
    ensures
        old(dst)@.len() != src@.len() ==> r == Err::<(), EncryptError>(EncryptError::LengthMismatch { src: src@.len() as usize, dst: old(dst)@.len() as usize }) && final(dst)@ == old(dst)@,
        old(dst)@.len() == src@.len() ==> match encryption_of(src@, key@, iv@, algo) {
            Some(out) => r is Ok && final(dst)@ == out,
            None => r matches Err(e) && aes_error_fits(e, key@) && final(dst)@ == src@,
        },
{
    if dst.len() != src.len() {
        return Err(EncryptError::LengthMismatch { src: src.len(), dst: dst.len() });
    }
    let mut i: usize = 0;
    while i < src.len()
        invariant
            dst@.len() == src@.len(),
            old(dst)@.len() == src@.len(),
            i <= src@.len(),
            forall|j: int| 0 <= j < i ==> dst@[j] == src@[j],
        decreases src@.len() - i,
    {
        dst[i] = src[i];
        i = i + 1;
    }
    proof {
        assert(dst@ =~= src@);
    }
    match algo {
        EncryptionAlgorithm::Aes => aes_encrypt_in(dst, key, iv),
        EncryptionAlgorithm::Unencrypted => Ok(()),
    }
}

/// Whether the secret fits the algorithm: 16, 24 or 32 bytes for AES, any
/// length without encryption.
pub fn is_valid_key_length(secret: &[u8], algo: EncryptionAlgorithm) -> (r: bool)
    ensures
        r == (algo == EncryptionAlgorithm::Unencrypted || secret@.len() == 16 || secret@.len() == 24
            || secret@.len() == 32),
{
    match algo {
        EncryptionAlgorithm::Aes => {
            let key_len = secret.len();
            key_len == 16 || key_len == 24 || key_len == 32
        },
        EncryptionAlgorithm::Unencrypted => true,
    }
}

proof fn lemma_xor_twice(data: Seq<u8>, ks: Seq<u8>)
    ensures
        xor_with(xor_with(data, ks), ks) == data,
{
    assert forall|i: int| 0 <= i < data.len() implies #[trigger] xor_with(xor_with(data, ks), ks)[i] == data[i] by {
        let a = data[i];
        let k = ks[i];
        assert((a ^ k) ^ k == a) by (bit_vector);
    }
    assert(xor_with(xor_with(data, ks), ks) =~= data);
}

/// Encryption is its own inverse: encrypting the encryption of `data` with
/// the same algorithm, key and IV gives `data` back, and both succeed or
/// fail together.
pub proof fn lemma_encrypt_twice(data: Seq<u8>, key: Seq<u8>, iv: Seq<u8>, algo: EncryptionAlgorithm)
    ensures
        encryption_of(data, key, iv, algo) matches Some(c) ==> encryption_of(c, key, iv, algo) == Some(data),
{
    if let Some(c) = encryption_of(data, key, iv, algo) {
        if algo == EncryptionAlgorithm::Aes {
            assert(c.len() == data.len());
            if key.len() == 16 {
                lemma_xor_twice(data, aes128_ctr_keystream(key, iv, data.len()));
            } else if key.len() == 24 {
                lemma_xor_twice(data, aes192_ctr_keystream(key, iv, data.len()));
            } else {
                lemma_xor_twice(data, aes256_ctr_keystream(key, iv, data.len()));
            }
        }
    }
}

} // verus!
