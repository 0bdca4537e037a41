//! AES, PBKDF2 and RSA operations on MEGA keys, and the MEGA-specific key
//! derivations built on them.

use vstd::prelude::*;
use vstd::arithmetic::power::pow;
use vstd::slice::{slice_subrange, slice_to_vec};
use vstd::utf8::encode_utf8;
use vstd::string::StringExecFns;
use cipher::{BlockDecryptMut, BlockEncryptMut, KeyInit, KeyIvInit, StreamCipher};
use crate::text::{chars_to_string, contains_seq, decimal, find_chars, find_from, push_decimal, split_second, str_chars, utf8_string};
use crate::util::{
    lemma_i32_byte_xor, lemma_i32_bytes_of_be_at, i32_byte, be_i32_at,
    be_nat, big_modpow, big_mul, bin_to_i32a, bytes_to_i32s, i32a_to_bin, i32s_to_bytes,
    is_minimal_be, long_to_bytearray, or_empty, u64_be_bytes, url_base64_decode, url_base64_encode,
    is_url_safe_b64_char, url_safe_no_pad_decoding, url_safe_no_pad_encoding,
};

verus! {

/// Why a cryptographic operation was refused.
#[derive(Debug)]
pub enum CryptoError {
    /// The key (or the IV) does not have the length AES-128 needs; `got` is the key's length.
    InvalidKeyLength { expected: usize, got: usize },
    /// The data is not a whole number of 16-byte blocks.
    InvalidDataLength,
    /// The cipher refused the data (bad padding).
    DecryptionFailed,
    /// The input is not of the expected form.
    InvalidInput(String),
}

/// The text that describes a cryptographic error.
pub open spec fn crypto_error_text(e: CryptoError) -> Seq<char> {
    match e {
        CryptoError::InvalidKeyLength { expected, got } =>
            "Invalid key length: expected "@ + decimal(expected as nat) + ", got "@ + decimal(got as nat),
        CryptoError::InvalidDataLength => "Invalid data length (not a multiple of block size)"@,
        CryptoError::DecryptionFailed => "Decryption failed"@,
        CryptoError::InvalidInput(m) => "Invalid input: "@ + m@,
    }
}

impl CryptoError {
    /// The text that describes this error.
    pub fn message(&self) -> (r: String)
        ensures
            r@ == crypto_error_text(*self),
    {
        match self {
            CryptoError::InvalidKeyLength { expected, got } => {
                let mut v: Vec<char> = Vec::new();
                push_decimal(&mut v, *expected as u64);
                let e = chars_to_string(v.as_slice());
                let mut w: Vec<char> = Vec::new();
                push_decimal(&mut w, *got as u64);
                let g = chars_to_string(w.as_slice());
                let mut s = String::from_str("Invalid key length: expected ");
                s.append(e.as_str());
                s.append(", got ");
                s.append(g.as_str());
                s
            },
            CryptoError::InvalidDataLength => String::from_str("Invalid data length (not a multiple of block size)"),
            CryptoError::DecryptionFailed => String::from_str("Decryption failed"),
            CryptoError::InvalidInput(m) => {
                let mut s = String::from_str("Invalid input: ");
                s.append(m.as_str());
                s
            },
        }
    }
}

/// AES block size in bytes.
pub const BLOCK_SIZE: usize = 16;

/// The all-zero IV used by several MEGA operations.
pub const AES_ZERO_IV: [u8; 16] = [0u8, 0, 0, 0, 0, 0, 0, 0, 0, 0, 0, 0, 0, 0, 0, 0];

/// Sixteen zero bytes.
pub open spec fn zero_block() -> Seq<u8> {
    Seq::new(16, |i: int| 0u8)
}

/// A byte result taken by its view.
pub open spec fn bytes_result(r: Result<Vec<u8>, CryptoError>) -> Result<Seq<u8>, CryptoError> {
    match r {
        Ok(v) => Ok(v@),
        Err(e) => Err(e),
    }
}

/// The error for a key of the wrong length.
pub open spec fn key_length_error(key_len: nat) -> CryptoError {
    CryptoError::InvalidKeyLength { expected: 16, got: key_len as usize }
}

// ---------------------------------------------------------------------------
// Names for the AES modes of the `aes`, `cbc`, `ecb` and `ctr` crates
// ---------------------------------------------------------------------------

/// AES-128-CBC encryption of whole blocks, without padding, as the `cbc` crate computes it.
pub uninterp spec fn aes128_cbc_encrypt(key: Seq<u8>, iv: Seq<u8>, data: Seq<u8>) -> Seq<u8>;

/// AES-128-CBC decryption of whole blocks, without padding, as the `cbc` crate computes it.
pub uninterp spec fn aes128_cbc_decrypt(key: Seq<u8>, iv: Seq<u8>, data: Seq<u8>) -> Seq<u8>;

/// AES-128-CBC encryption with PKCS#7 padding, as the `cbc` crate computes it.
pub uninterp spec fn aes128_cbc_encrypt_pkcs7(key: Seq<u8>, iv: Seq<u8>, data: Seq<u8>) -> Seq<u8>;

/// AES-128-CBC decryption with PKCS#7 padding removal, as the `cbc` crate
/// computes it; `None` where the padding is malformed.
pub uninterp spec fn aes128_cbc_decrypt_pkcs7(key: Seq<u8>, iv: Seq<u8>, data: Seq<u8>) -> Option<Seq<u8>>;

/// AES-128-ECB encryption of whole blocks, as the `ecb` crate computes it.
pub uninterp spec fn aes128_ecb_encrypt(key: Seq<u8>, data: Seq<u8>) -> Seq<u8>;

/// AES-128-ECB decryption of whole blocks, as the `ecb` crate computes it.
pub uninterp spec fn aes128_ecb_decrypt(key: Seq<u8>, data: Seq<u8>) -> Seq<u8>;

/// The data XORed with the AES-128-CTR keystream (128-bit big-endian
/// counter), as the `ctr` crate computes it.
pub uninterp spec fn aes128_ctr_apply(key: Seq<u8>, iv: Seq<u8>, data: Seq<u8>) -> Seq<u8>;

/// `cipher::InvalidLength`, the error of a key or IV of the wrong length; carried opaque.
#[verifier::external_type_specification]
#[verifier::external_body]
pub struct ExInvalidLength(cipher::InvalidLength);

/// `cipher::block_padding::UnpadError`, the error of malformed padding; carried opaque.
#[verifier::external_type_specification]
#[verifier::external_body]
pub struct ExUnpadError(cipher::block_padding::UnpadError);

/// `cbc::Encryptor::<Aes128>::new_from_slices` and `encrypt_padded_mut::<NoPadding>`:
/// refuses a key or IV that is not 16 bytes; the ciphertext has the length of
/// the data and decrypts back to it.
#[verifier::external_body]
fn cbc_encrypt_blocks(data: &[u8], key: &[u8], iv: &[u8]) -> (r: Result<Vec<u8>, cipher::InvalidLength>)
    requires
        data@.len() % 16 == 0,
    ensures
        r is Err <==> (key@.len() != 16 || iv@.len() != 16),
        r matches Ok(v) ==> v@ == aes128_cbc_encrypt(key@, iv@, data@),
        r matches Ok(v) ==> v@.len() == data@.len(),
        r matches Ok(v) ==> aes128_cbc_decrypt(key@, iv@, v@) == data@,
{
    let c = cbc::Encryptor::<aes::Aes128>::new_from_slices(key, iv)?;
    let mut buf = data.to_vec();
    c.encrypt_padded_mut::<cipher::block_padding::NoPadding>(&mut buf, data.len()).unwrap();
    Ok(buf)
}

/// `cbc::Decryptor::<Aes128>::new_from_slices` and `decrypt_padded_mut::<NoPadding>`:
/// refuses a key or IV that is not 16 bytes; the plaintext has the length of
/// the data.
#[verifier::external_body]
fn cbc_decrypt_blocks(data: &[u8], key: &[u8], iv: &[u8]) -> (r: Result<Vec<u8>, cipher::InvalidLength>)
    requires
        data@.len() % 16 == 0,
    ensures
        r is Err <==> (key@.len() != 16 || iv@.len() != 16),
        r matches Ok(v) ==> v@ == aes128_cbc_decrypt(key@, iv@, data@),
        r matches Ok(v) ==> v@.len() == data@.len(),
{
    let c = cbc::Decryptor::<aes::Aes128>::new_from_slices(key, iv)?;
    let mut buf = data.to_vec();
    c.decrypt_padded_mut::<cipher::block_padding::NoPadding>(&mut buf).unwrap();
    Ok(buf)
}

/// `cbc::Encryptor::<Aes128>::new_from_slices` and `encrypt_padded_mut::<Pkcs7>`
/// over the first `msg_len` bytes of `buf`, which has room for the padding:
/// refuses a key or IV that is not 16 bytes; the ciphertext decrypts back.
#[verifier::external_body]
fn cbc_encrypt_pkcs7(buf: Vec<u8>, msg_len: usize, key: &[u8], iv: &[u8]) -> (r: Result<Vec<u8>, cipher::InvalidLength>)
    requires
        msg_len <= buf@.len(),
        buf@.len() >= (msg_len / 16 + 1) * 16,
    ensures
        r is Err <==> (key@.len() != 16 || iv@.len() != 16),
        r matches Ok(v) ==> v@ == aes128_cbc_encrypt_pkcs7(key@, iv@, buf@.subrange(0, msg_len as int)),
        r matches Ok(v) ==> aes128_cbc_decrypt_pkcs7(key@, iv@, v@) == Some(buf@.subrange(0, msg_len as int)),
{
    let c = cbc::Encryptor::<aes::Aes128>::new_from_slices(key, iv)?;
    let mut buf = buf;
    let out = c.encrypt_padded_mut::<cipher::block_padding::Pkcs7>(&mut buf, msg_len).unwrap().to_vec();
    Ok(out)
}

/// `cbc::Decryptor::<Aes128>::new_from_slices` and `decrypt_padded_mut::<Pkcs7>`:
/// the outer error refuses a key or IV that is not 16 bytes, the inner one
/// malformed padding.
#[verifier::external_body]
fn cbc_decrypt_pkcs7(data: &[u8], key: &[u8], iv: &[u8])
    -> (r: Result<Result<Vec<u8>, cipher::block_padding::UnpadError>, cipher::InvalidLength>)
    ensures
        r is Err <==> (key@.len() != 16 || iv@.len() != 16),
        r matches Ok(inner) ==> (inner is Ok <==> aes128_cbc_decrypt_pkcs7(key@, iv@, data@) is Some),
        r matches Ok(Ok(v)) ==> aes128_cbc_decrypt_pkcs7(key@, iv@, data@) == Some(v@),
{
    let c = cbc::Decryptor::<aes::Aes128>::new_from_slices(key, iv)?;
    let mut buf = data.to_vec();
    Ok(c.decrypt_padded_mut::<cipher::block_padding::Pkcs7>(&mut buf).map(|p| p.to_vec()))
}

/// `ecb::Encryptor::<Aes128>::new` and `encrypt_padded_mut::<NoPadding>` with a
/// 16-byte key: the ciphertext has the length of the data and decrypts back.
#[verifier::external_body]
fn ecb_encrypt_blocks(data: &[u8], key: &[u8]) -> (r: Vec<u8>)
    requires
        data@.len() % 16 == 0,
        key@.len() == 16,
    ensures
        r@ == aes128_ecb_encrypt(key@, data@),
        r@.len() == data@.len(),
        aes128_ecb_decrypt(key@, r@) == data@,
{
    let c = ecb::Encryptor::<aes::Aes128>::new(key.into());
    let mut buf = data.to_vec();
    c.encrypt_padded_mut::<cipher::block_padding::NoPadding>(&mut buf, data.len()).unwrap();
    buf
}

/// `ecb::Decryptor::<Aes128>::new` and `decrypt_padded_mut::<NoPadding>` with a
/// 16-byte key: the plaintext has the length of the data.
#[verifier::external_body]
fn ecb_decrypt_blocks(data: &[u8], key: &[u8]) -> (r: Vec<u8>)
    requires
        data@.len() % 16 == 0,
        key@.len() == 16,
    ensures
        r@ == aes128_ecb_decrypt(key@, data@),
        r@.len() == data@.len(),
{
    let c = ecb::Decryptor::<aes::Aes128>::new(key.into());
    let mut buf = data.to_vec();
    c.decrypt_padded_mut::<cipher::block_padding::NoPadding>(&mut buf).unwrap();
    buf
}

/// The block counter held in the last eight bytes of a CTR IV, big-endian.
pub open spec fn iv_counter(iv: Seq<u8>) -> nat {
    be_nat(iv.subrange(8, 16))
}

/// A CTR IV with its first eight bytes kept and the counter `c` in the last eight.
pub open spec fn iv_with_counter(iv: Seq<u8>, c: u64) -> Seq<u8> {
    iv.subrange(0, 8) + u64_be_bytes(c)
}

/// `ctr::Ctr128BE::<Aes128>::new_from_slices` and `apply_keystream`: refuses a
/// key or IV that is not 16 bytes; the output has the length of the data, and
/// applying the same keystream again gives the data back. Keystream block `j`
/// is the encryption of the IV plus `j` as a 128-bit big-endian number, so
/// the output bytes from block `j` on are those of a run whose IV has the
/// counter moved on by `j` (stated where the addition does not carry out of
/// the last eight bytes).
#[verifier::external_body]
fn ctr_apply(data: &[u8], key: &[u8], iv: &[u8]) -> (r: Result<Vec<u8>, cipher::InvalidLength>)
    ensures
        r is Err <==> (key@.len() != 16 || iv@.len() != 16),
        r matches Ok(v) ==> v@ == aes128_ctr_apply(key@, iv@, data@),
        r matches Ok(v) ==> v@.len() == data@.len(),
        r matches Ok(v) ==> aes128_ctr_apply(key@, iv@, v@) == data@,
        r matches Ok(v) ==> forall|j: nat, m: nat|
            16 * j + m <= data@.len() && iv_counter(iv@) + j <= u64::MAX ==>
                #[trigger] v@.subrange((16 * j) as int, (16 * j + m) as int) == aes128_ctr_apply(
                    key@,
                    iv_with_counter(iv@, (iv_counter(iv@) + j) as u64),
                    data@.subrange((16 * j) as int, (16 * j + m) as int),
                ),
{
    let mut c = ctr::Ctr128BE::<aes::Aes128>::new_from_slices(key, iv)?;
    let mut buf = data.to_vec();
    c.apply_keystream(&mut buf);
    Ok(buf)
}

// ---------------------------------------------------------------------------
// AES-CBC, AES-ECB and AES-CTR with the library's errors
// ---------------------------------------------------------------------------

/// CBC encryption of whole blocks: refused data lengths first, then keys or IVs.
pub open spec fn spec_cbc_encrypt_nopadding(data: Seq<u8>, key: Seq<u8>, iv: Seq<u8>) -> Result<Seq<u8>, CryptoError> {
    if data.len() % 16 != 0 {
        Err(CryptoError::InvalidDataLength)
    } else if key.len() != 16 || iv.len() != 16 {
        Err(key_length_error(key.len()))
    } else {
        Ok(aes128_cbc_encrypt(key, iv, data))
    }
}

/// CBC decryption of whole blocks: refused data lengths first, then keys or IVs.
pub open spec fn spec_cbc_decrypt_nopadding(data: Seq<u8>, key: Seq<u8>, iv: Seq<u8>) -> Result<Seq<u8>, CryptoError> {
    if data.len() % 16 != 0 {
        Err(CryptoError::InvalidDataLength)
    } else if key.len() != 16 || iv.len() != 16 {
        Err(key_length_error(key.len()))
    } else {
        Ok(aes128_cbc_decrypt(key, iv, data))
    }
}

/// AES-128-CBC encryption of a whole number of blocks, without padding.
pub fn aes_cbc_encrypt_nopadding(data: &[u8], key: &[u8], iv: &[u8]) -> (r: Result<Vec<u8>, CryptoError>)
    ensures
        bytes_result(r) == spec_cbc_encrypt_nopadding(data@, key@, iv@),
        r matches Ok(v) ==> v@.len() == data@.len(),
        r matches Ok(v) ==> aes128_cbc_decrypt(key@, iv@, v@) == data@,
{
    if data.len() % BLOCK_SIZE != 0 {
        return Err(CryptoError::InvalidDataLength);
    }
    match cbc_encrypt_blocks(data, key, iv) {
        Ok(v) => Ok(v),
        Err(_) => Err(CryptoError::InvalidKeyLength { expected: 16, got: key.len() }),
    }
}

/// AES-128-CBC decryption of a whole number of blocks, without padding.
pub fn aes_cbc_decrypt_nopadding(data: &[u8], key: &[u8], iv: &[u8]) -> (r: Result<Vec<u8>, CryptoError>)
    ensures
        bytes_result(r) == spec_cbc_decrypt_nopadding(data@, key@, iv@),
        r matches Ok(v) ==> v@.len() == data@.len(),
{
    if data.len() % BLOCK_SIZE != 0 {
        return Err(CryptoError::InvalidDataLength);
    }
    match cbc_decrypt_blocks(data, key, iv) {
        Ok(v) => Ok(v),
        Err(_) => Err(CryptoError::InvalidKeyLength { expected: 16, got: key.len() }),
    }
}

/// `data` followed by zeros up to the next whole block (a full block of zeros
/// when `data` already ends on a block boundary).
pub open spec fn zero_padded_to_next_block(data: Seq<u8>) -> Seq<u8> {
    Seq::new(((data.len() / 16 + 1) * 16) as nat, |i: int| if i < data.len() { data[i] } else { 0u8 })
}

/// AES-128-CBC encryption with PKCS#7 padding.
pub fn aes_cbc_encrypt_pkcs7(data: &[u8], key: &[u8], iv: &[u8]) -> (r: Result<Vec<u8>, CryptoError>)
    requires
        data@.len() + 16 <= usize::MAX,
    ensures
        bytes_result(r) == (if key@.len() != 16 || iv@.len() != 16 {
            Err(key_length_error(key@.len()))
        } else {
            Ok(aes128_cbc_encrypt_pkcs7(key@, iv@, data@))
        }),
        r matches Ok(v) ==> aes128_cbc_decrypt_pkcs7(key@, iv@, v@) == Some(data@),
{
    let padded_len = (data.len() / BLOCK_SIZE + 1) * BLOCK_SIZE;
    let mut buf: Vec<u8> = Vec::with_capacity(padded_len);
    let mut i: usize = 0;
    while i < padded_len
        invariant
            i <= padded_len,
            padded_len == (data@.len() / 16 + 1) * 16,
            data@.len() <= padded_len,
            buf@ == zero_padded_to_next_block(data@).subrange(0, i as int),
        decreases padded_len - i,
    {
        if i < data.len() {
            buf.push(data[i]);
        } else {
            buf.push(0u8);
        }
        i = i + 1;
        assert(buf@ =~= zero_padded_to_next_block(data@).subrange(0, i as int));
    }
    assert(buf@.subrange(0, data@.len() as int) =~= data@);
    match cbc_encrypt_pkcs7(buf, data.len(), key, iv) {
        Ok(v) => Ok(v),
        Err(_) => Err(CryptoError::InvalidKeyLength { expected: 16, got: key.len() }),
    }
}

/// AES-128-CBC decryption with PKCS#7 padding removal.
pub fn aes_cbc_decrypt_pkcs7(data: &[u8], key: &[u8], iv: &[u8]) -> (r: Result<Vec<u8>, CryptoError>)
    ensures
        bytes_result(r) == (if key@.len() != 16 || iv@.len() != 16 {
            Err(key_length_error(key@.len()))
        } else {
            match aes128_cbc_decrypt_pkcs7(key@, iv@, data@) {
                Some(p) => Ok(p),
                None => Err(CryptoError::DecryptionFailed),
            }
        }),
{
    match cbc_decrypt_pkcs7(data, key, iv) {
        Ok(Ok(v)) => Ok(v),
        Ok(Err(_)) => Err(CryptoError::DecryptionFailed),
        Err(_) => Err(CryptoError::InvalidKeyLength { expected: 16, got: key.len() }),
    }
}

/// ECB encryption of whole blocks: refused data lengths first, then keys.
pub open spec fn spec_ecb_encrypt_nopadding(data: Seq<u8>, key: Seq<u8>) -> Result<Seq<u8>, CryptoError> {
    if data.len() % 16 != 0 {
        Err(CryptoError::InvalidDataLength)
    } else if key.len() != 16 {
        Err(key_length_error(key.len()))
    } else {
        Ok(aes128_ecb_encrypt(key, data))
    }
}

/// ECB decryption of whole blocks: refused data lengths first, then keys.
pub open spec fn spec_ecb_decrypt_nopadding(data: Seq<u8>, key: Seq<u8>) -> Result<Seq<u8>, CryptoError> {
    if data.len() % 16 != 0 {
        Err(CryptoError::InvalidDataLength)
    } else if key.len() != 16 {
        Err(key_length_error(key.len()))
    } else {
        Ok(aes128_ecb_decrypt(key, data))
    }
}

/// AES-128-ECB encryption of a whole number of blocks.
pub fn aes_ecb_encrypt_nopadding(data: &[u8], key: &[u8]) -> (r: Result<Vec<u8>, CryptoError>)
    ensures
        bytes_result(r) == spec_ecb_encrypt_nopadding(data@, key@),
        r matches Ok(v) ==> v@.len() == data@.len(),
        r matches Ok(v) ==> aes128_ecb_decrypt(key@, v@) == data@,
{
    if data.len() % BLOCK_SIZE != 0 {
        return Err(CryptoError::InvalidDataLength);
    }
    if key.len() != 16 {
        return Err(CryptoError::InvalidKeyLength { expected: 16, got: key.len() });
    }
    Ok(ecb_encrypt_blocks(data, key))
}

/// AES-128-ECB decryption of a whole number of blocks.
pub fn aes_ecb_decrypt_nopadding(data: &[u8], key: &[u8]) -> (r: Result<Vec<u8>, CryptoError>)
    ensures
        bytes_result(r) == spec_ecb_decrypt_nopadding(data@, key@),
        r matches Ok(v) ==> v@.len() == data@.len(),
{
    if data.len() % BLOCK_SIZE != 0 {
        return Err(CryptoError::InvalidDataLength);
    }
    if key.len() != 16 {
        return Err(CryptoError::InvalidKeyLength { expected: 16, got: key.len() });
    }
    Ok(ecb_decrypt_blocks(data, key))
}

/// CTR keystream application: refused keys or IVs, else the transformed data.
pub open spec fn spec_ctr(data: Seq<u8>, key: Seq<u8>, iv: Seq<u8>) -> Result<Seq<u8>, CryptoError> {
    if key.len() != 16 || iv.len() != 16 {
        Err(key_length_error(key.len()))
    } else {
        Ok(aes128_ctr_apply(key, iv, data))
    }
}

/// Whether `plain` is the CTR decryption of `data` under `key` from `iv` as
/// seen block by block: it has the data's length, and the part from any
/// block boundary `off` on is the decryption of that part of the data at
/// the IV moved forward to `off`.
pub open spec fn ctr_decryption_of(key: Seq<u8>, iv: Seq<u8>, data: Seq<u8>, plain: Seq<u8>) -> bool {
    &&& plain.len() == data.len()
    &&& forall|off: nat, m: nat|
        off % 16 == 0 && off + m <= data.len() ==>
            #[trigger] plain.subrange(off as int, (off + m) as int) == aes128_ctr_apply(
                key,
                spec_forward_iv(iv, off as u64),
                data.subrange(off as int, (off + m) as int),
            )
}

/// Whether a CTR IV starts its block counter at zero, as a MEGA file IV does.
pub open spec fn counter_starts_at_zero(iv: Seq<u8>) -> bool {
    iv.len() == 16 && forall|i: int| 8 <= i < 16 ==> iv[i] == 0u8
}

proof fn lemma_zero_counter(iv: Seq<u8>)
    requires
        counter_starts_at_zero(iv),
    ensures
        iv_counter(iv) == 0,
{
    let t = iv.subrange(8, 16);
    assert(t =~= seq![0u8, 0u8, 0u8, 0u8, 0u8, 0u8, 0u8, 0u8]);
    reveal_with_fuel(be_nat, 9);
    assert(t.drop_last() =~= seq![0u8, 0u8, 0u8, 0u8, 0u8, 0u8, 0u8]);
    assert(t.drop_last().drop_last() =~= seq![0u8, 0u8, 0u8, 0u8, 0u8, 0u8]);
    assert(t.drop_last().drop_last().drop_last() =~= seq![0u8, 0u8, 0u8, 0u8, 0u8]);
    assert(t.drop_last().drop_last().drop_last().drop_last() =~= seq![0u8, 0u8, 0u8, 0u8]);
    assert(t.drop_last().drop_last().drop_last().drop_last().drop_last() =~= seq![0u8, 0u8, 0u8]);
    assert(t.drop_last().drop_last().drop_last().drop_last().drop_last().drop_last() =~= seq![0u8, 0u8]);
    assert(t.drop_last().drop_last().drop_last().drop_last().drop_last().drop_last().drop_last() =~= seq![0u8]);
    assert(t.drop_last().drop_last().drop_last().drop_last().drop_last().drop_last().drop_last().drop_last() =~= Seq::<u8>::empty());
}

/// AES-128-CTR decryption (XOR with the keystream). Where the IV's counter
/// starts at zero, the decryption of the bytes from any block boundary `off`
/// on is that of a run whose IV is moved forward to `off`: a file decrypted
/// chunk by chunk, each at its forwarded IV, gives the decryption of the
/// whole file.
pub fn aes_ctr_decrypt(data: &[u8], key: &[u8], iv: &[u8]) -> (r: Result<Vec<u8>, CryptoError>)
    ensures
        bytes_result(r) == spec_ctr(data@, key@, iv@),
        r matches Ok(v) ==> v@.len() == data@.len(),
        r matches Ok(v) ==> aes128_ctr_apply(key@, iv@, v@) == data@,
        r matches Ok(v) ==> counter_starts_at_zero(iv@) ==> ctr_decryption_of(key@, iv@, data@, v@),
{
    let data_len = data.len();
    match ctr_apply(data, key, iv) {
        Ok(v) => {
            proof {
                if counter_starts_at_zero(iv@) {
                    lemma_zero_counter(iv@);
                    assert forall|off: nat, m: nat|
                        off % 16 == 0 && off + m <= data@.len() implies
                            #[trigger] v@.subrange(off as int, (off + m) as int) == aes128_ctr_apply(
                                key@,
                                spec_forward_iv(iv@, off as u64),
                                data@.subrange(off as int, (off + m) as int),
                            ) by {
                        let j: nat = off / 16;
                        assert(16 * j == off);
                        assert(data@.len() == data_len);
                        assert(j <= u64::MAX);
                        assert((off as u64) / 16 == j);
                        assert(iv_with_counter(iv@, (iv_counter(iv@) + j) as u64) =~= spec_forward_iv(iv@, off as u64));
                        assert(v@.subrange((16 * j) as int, (16 * j + m) as int) == aes128_ctr_apply(
                            key@,
                            iv_with_counter(iv@, (iv_counter(iv@) + j) as u64),
                            data@.subrange((16 * j) as int, (16 * j + m) as int),
                        ));
                    }
                }
            }
            Ok(v)
        },
        Err(_) => Err(CryptoError::InvalidKeyLength { expected: 16, got: key.len() }),
    }
}

/// AES-128-CTR encryption, which is the same keystream XOR as decryption.
pub fn aes_ctr_encrypt(data: &[u8], key: &[u8], iv: &[u8]) -> (r: Result<Vec<u8>, CryptoError>)
    ensures
        bytes_result(r) == spec_ctr(data@, key@, iv@),
        r matches Ok(v) ==> v@.len() == data@.len(),
        r matches Ok(v) ==> aes128_ctr_apply(key@, iv@, v@) == data@,
{
    aes_ctr_decrypt(data, key, iv)
}

// ---------------------------------------------------------------------------
// RSA
// ---------------------------------------------------------------------------

/// Raw RSA decryption `enc_data^d mod (p*q)` on big-endian numbers; the
/// result comes back in its shortest big-endian form. The modulus may not be zero.
pub fn rsa_decrypt(enc_data: &[u8], p: &[u8], q: &[u8], d: &[u8]) -> (r: Vec<u8>)
    requires
        be_nat(p@) * be_nat(q@) > 0,
    ensures
        be_nat(r@) == pow(be_nat(enc_data@) as int, be_nat(d@)) % ((be_nat(p@) * be_nat(q@)) as int),
        is_minimal_be(r@),
{
    let n = big_mul(p, q);
    big_modpow(enc_data, d, n.as_slice())
}

// ---------------------------------------------------------------------------
// PBKDF2
// ---------------------------------------------------------------------------

/// PBKDF2-HMAC-SHA512 output of `len` bytes, as the `pbkdf2` crate computes it.
pub uninterp spec fn pbkdf2_hmac_sha512_output(password: Seq<u8>, salt: Seq<u8>, rounds: u32, len: nat) -> Seq<u8>;

/// PBKDF2-HMAC-SHA256 output of `len` bytes, as the `pbkdf2` crate computes it.
pub uninterp spec fn pbkdf2_hmac_sha256_output(password: Seq<u8>, salt: Seq<u8>, rounds: u32, len: nat) -> Seq<u8>;

/// `pbkdf2::pbkdf2::<Hmac<Sha512>>` into `len` bytes. HMAC accepts keys of
/// any length, so the call never fails.
#[verifier::external_body]
fn pbkdf2_sha512(password: &[u8], salt: &[u8], rounds: u32, len: usize) -> (r: Result<Vec<u8>, cipher::InvalidLength>)
    ensures
        r is Ok,
        r matches Ok(v) ==> v@ == pbkdf2_hmac_sha512_output(password@, salt@, rounds, len as nat),
        r matches Ok(v) ==> v@.len() == len,
{
    let mut key = vec![0u8; len];
    pbkdf2::pbkdf2::<hmac::Hmac<sha2::Sha512>>(password, salt, rounds, &mut key)?;
    Ok(key)
}

/// `pbkdf2::pbkdf2::<Hmac<Sha256>>` into `len` bytes. HMAC accepts keys of
/// any length, so the call never fails.
#[verifier::external_body]
fn pbkdf2_sha256(password: &[u8], salt: &[u8], rounds: u32, len: usize) -> (r: Result<Vec<u8>, cipher::InvalidLength>)
    ensures
        r is Ok,
        r matches Ok(v) ==> v@ == pbkdf2_hmac_sha256_output(password@, salt@, rounds, len as nat),
        r matches Ok(v) ==> v@.len() == len,
{
    let mut key = vec![0u8; len];
    pbkdf2::pbkdf2::<hmac::Hmac<sha2::Sha256>>(password, salt, rounds, &mut key)?;
    Ok(key)
}

/// PBKDF2-HMAC-SHA512 of the password's UTF-8 bytes, `output_bits / 8` bytes long.
pub fn pbkdf2_hmac_sha512(password: &str, salt: &[u8], iterations: u32, output_bits: u32) -> (r: Result<Vec<u8>, CryptoError>)
    ensures
        bytes_result(r) == Ok::<Seq<u8>, CryptoError>(pbkdf2_hmac_sha512_output(
            encode_utf8(password@), salt@, iterations, (output_bits / 8) as nat)),
        r matches Ok(v) ==> v@.len() == output_bits / 8,
{
    let output_bytes = (output_bits / 8) as usize;
    match pbkdf2_sha512(password.as_bytes(), salt, iterations, output_bytes) {
        Ok(key) => Ok(key),
        Err(_) => Err(CryptoError::InvalidInput(String::from_str("PBKDF2-SHA512 failed"))),
    }
}

/// PBKDF2-HMAC-SHA256 of the password's UTF-8 bytes, `output_bits / 8` bytes long.
pub fn pbkdf2_hmac_sha256(password: &str, salt: &[u8], iterations: u32, output_bits: u32) -> (r: Result<Vec<u8>, CryptoError>)
    ensures
        bytes_result(r) == Ok::<Seq<u8>, CryptoError>(pbkdf2_hmac_sha256_output(
            encode_utf8(password@), salt@, iterations, (output_bits / 8) as nat)),
        r matches Ok(v) ==> v@.len() == output_bits / 8,
{
    let output_bytes = (output_bits / 8) as usize;
    match pbkdf2_sha256(password.as_bytes(), salt, iterations, output_bytes) {
        Ok(key) => Ok(key),
        Err(_) => Err(CryptoError::InvalidInput(String::from_str("PBKDF2-SHA256 failed"))),
    }
}


// ---------------------------------------------------------------------------
// MEGA file keys
// ---------------------------------------------------------------------------

/// The AES key of a MEGA file key: the XOR of the two halves of a 32-byte key,
/// or the first (at most 16) bytes of a shorter one.
pub open spec fn spec_link_key(raw: Seq<u8>) -> Seq<u8> {
    if raw.len() < 32 {
        raw.subrange(0, if raw.len() < 16 { raw.len() as int } else { 16 })
    } else {
        Seq::new(16, |j: int| raw[j] ^ raw[j + 16])
    }
}

/// The file key and IV of a full (32-byte) MEGA key: key byte `j` is byte
/// `j` XOR byte `16 + j`, so XORing the second half back gives the first;
/// the IV is bytes 16 to 24 followed by eight zero bytes (the block counter
/// starting at zero).
pub proof fn lemma_link_key_parts(raw: Seq<u8>)
    requires
        raw.len() >= 32,
    ensures
        spec_link_key(raw).len() == 16,
        forall|j: int| 0 <= j < 16 ==> #[trigger] spec_link_key(raw)[j] == raw[j] ^ raw[16 + j],
        forall|j: int| 0 <= j < 16 ==> (#[trigger] spec_link_key(raw)[j]) ^ raw[16 + j] == raw[j],
        spec_link_key_iv(raw).len() == 16,
        forall|j: int| 0 <= j < 8 ==> #[trigger] spec_link_key_iv(raw)[j] == raw[16 + j],
        forall|j: int| 8 <= j < 16 ==> #[trigger] spec_link_key_iv(raw)[j] == 0,
        counter_starts_at_zero(spec_link_key_iv(raw)),
{
    assert forall|j: int| 0 <= j < 16 implies (#[trigger] spec_link_key(raw)[j]) ^ raw[16 + j] == raw[j] by {
        let a = raw[j];
        let b = raw[16 + j];
        assert((a ^ b) ^ b == a) by (bit_vector);
    }
}

/// Extracts the 16-byte AES key from a URL-safe base64 MEGA file key.
pub fn init_mega_link_key(key_string: &str) -> (r: Vec<u8>)
    ensures
        r@ == spec_link_key(or_empty(url_safe_no_pad_decoding(key_string@))),
{
    let raw = url_base64_decode(key_string);
    let int_key = bin_to_i32a(raw.as_slice());
    if int_key.len() < 8 {
        let n = if raw.len() < 16 { raw.len() } else { 16 };
        return slice_to_vec(slice_subrange(raw.as_slice(), 0, n));
    }
    let folded: Vec<i32> = vec![
        int_key[0] ^ int_key[4],
        int_key[1] ^ int_key[5],
        int_key[2] ^ int_key[6],
        int_key[3] ^ int_key[7],
    ];
    let out = i32a_to_bin(folded.as_slice());
    proof {
        let b = raw@;
        assert forall|j: int| 0 <= j < 16 implies #[trigger] out@[j] == b[j] ^ b[j + 16] by {
            let k = j / 4;
            lemma_i32_byte_xor(int_key@[k], int_key@[k + 4]);
            lemma_i32_bytes_of_be_at(b, 4 * k);
            lemma_i32_bytes_of_be_at(b, 4 * k + 16);
            assert(int_key@[k] == be_i32_at(b, 4 * k));
            assert(int_key@[k + 4] == be_i32_at(b, 4 * (k + 4)));
            assert(out@[j] == i32_byte(folded@[k], j % 4));
        }
        assert(out@ =~= spec_link_key(b));
    }
    out
}

/// The CTR IV of a MEGA file key: bytes 16..24 of the 32-byte key and eight
/// zero bytes, or sixteen zeros for a key shorter than 24 bytes.
pub open spec fn spec_link_key_iv(raw: Seq<u8>) -> Seq<u8> {
    if raw.len() < 24 {
        zero_block()
    } else {
        Seq::new(16, |j: int| if j < 8 { raw[j + 16] } else { 0u8 })
    }
}

/// Extracts the 16-byte CTR IV from a URL-safe base64 MEGA file key.
pub fn init_mega_link_key_iv(key_string: &str) -> (r: Vec<u8>)
    ensures
        r@ == spec_link_key_iv(or_empty(url_safe_no_pad_decoding(key_string@))),
{
    let raw = url_base64_decode(key_string);
    let int_key = bin_to_i32a(raw.as_slice());
    if int_key.len() < 6 {
        let z: Vec<u8> = vec![0u8; 16];
        assert(z@ =~= zero_block());
        return z;
    }
    let iv_ints: Vec<i32> = vec![int_key[4], int_key[5], 0i32, 0i32];
    let out = i32a_to_bin(iv_ints.as_slice());
    proof {
        let b = raw@;
        lemma_i32_bytes_of_be_at(b, 16);
        lemma_i32_bytes_of_be_at(b, 20);
        assert(int_key@[4] == be_i32_at(b, 16));
        assert(int_key@[5] == be_i32_at(b, 20));
        assert(i32_byte(0i32, 0) == 0 && i32_byte(0i32, 1) == 0 && i32_byte(0i32, 2) == 0 && i32_byte(0i32, 3) == 0) by (bit_vector);
        assert forall|j: int| 0 <= j < 16 implies #[trigger] out@[j] == spec_link_key_iv(b)[j] by {
            assert(out@[j] == i32_byte(iv_ints@[j / 4], j % 4));
        }
        assert(out@ =~= spec_link_key_iv(b));
    }
    out
}

/// The CTR IV moved forward to `bytes_downloaded`: the first eight bytes of
/// `iv` (zero-filled if shorter), then the block counter
/// `bytes_downloaded / 16` as a big-endian `u64`.
pub open spec fn spec_forward_iv(iv: Seq<u8>, bytes_downloaded: u64) -> Seq<u8> {
    Seq::new(16, |j: int|
        if j < 8 {
            if j < iv.len() { iv[j] } else { 0u8 }
        } else {
            u64_be_bytes(bytes_downloaded / 16)[j - 8]
        })
}

/// Moves the CTR IV forward to a byte offset, for resuming decryption mid-file.
pub fn forward_mega_link_key_iv(iv: &[u8], bytes_downloaded: u64) -> (r: Vec<u8>)
    ensures
        r@ == spec_forward_iv(iv@, bytes_downloaded),
{
    let mut new_iv: Vec<u8> = Vec::with_capacity(16);
    let copy_len = if iv.len() < 8 { iv.len() } else { 8 };
    let mut i: usize = 0;
    while i < 8
        invariant
            i <= 8,
            copy_len == (if iv@.len() < 8 { iv@.len() } else { 8 }),
            new_iv@ == spec_forward_iv(iv@, bytes_downloaded).subrange(0, i as int),
        decreases 8 - i,
    {
        if i < copy_len {
            new_iv.push(iv[i]);
        } else {
            new_iv.push(0u8);
        }
        i = i + 1;
        assert(new_iv@ =~= spec_forward_iv(iv@, bytes_downloaded).subrange(0, i as int));
    }
    let counter_bytes = long_to_bytearray(bytes_downloaded / 16);
    let mut k: usize = 0;
    while k < 8
        invariant
            k <= 8,
            counter_bytes@ == u64_be_bytes(bytes_downloaded / 16),
            new_iv@ == spec_forward_iv(iv@, bytes_downloaded).subrange(0, 8 + k),
        decreases 8 - k,
    {
        new_iv.push(counter_bytes[k]);
        k = k + 1;
        assert(new_iv@ =~= spec_forward_iv(iv@, bytes_downloaded).subrange(0, 8 + k));
    }
    assert(new_iv@ =~= spec_forward_iv(iv@, bytes_downloaded));
    new_iv
}

// ---------------------------------------------------------------------------
// Account keys
// ---------------------------------------------------------------------------

/// The 16 bytes into which an e-mail address is folded: byte `i` of the
/// address is XORed into position `i % 16` of a zero block.
pub open spec fn fold_email(e: Seq<u8>) -> Seq<u8>
    decreases e.len(),
{
    if e.len() == 0 {
        zero_block()
    } else {
        let h = fold_email(e.drop_last());
        let k = (e.len() - 1) % 16;
        h.update(k, h[k] ^ e.last())
    }
}

/// `h` encrypted `n` times in a row with AES-128-CBC under `key` and a zero IV.
pub open spec fn cbc_iterate(key: Seq<u8>, h: Seq<u8>, n: nat) -> Seq<u8>
    decreases n,
{
    if n == 0 { h } else { aes128_cbc_encrypt(key, zero_block(), cbc_iterate(key, h, (n - 1) as nat)) }
}

/// Number of AES-CBC rounds in the legacy user hash.
pub const USER_HASH_ROUNDS: u32 = 16384;

/// The legacy MEGA user hash: the e-mail folded into a block, encrypted
/// 16384 times under the password key, and bytes 0..4 and 8..12 of the result
/// in URL-safe base64. A password key that is not four integers is refused.
pub open spec fn spec_user_hash(email: Seq<u8>, aes_key: Seq<i32>) -> Result<Seq<char>, CryptoError> {
    if aes_key.len() != 4 {
        Err(key_length_error(4 * aes_key.len()))
    } else {
        let h = cbc_iterate(i32s_to_bytes(aes_key), fold_email(email), USER_HASH_ROUNDS as nat);
        Ok(url_safe_no_pad_encoding(h.subrange(0, 4) + h.subrange(8, 12)))
    }
}

/// A string result taken by its view.
pub open spec fn string_result(r: Result<String, CryptoError>) -> Result<Seq<char>, CryptoError> {
    match r {
        Ok(v) => Ok(v@),
        Err(e) => Err(e),
    }
}

/// Computes the legacy MEGA user hash from the e-mail bytes and the password key.
pub fn mega_user_hash(email_bytes: &[u8], aes_key: &[i32]) -> (r: Result<String, CryptoError>)
    requires
        aes_key@.len() * 4 <= usize::MAX,
    ensures
        string_result(r) == spec_user_hash(email_bytes@, aes_key@),
        r is Ok <==> aes_key@.len() == 4,
        r matches Ok(s) ==> {
            let block = cbc_iterate(i32s_to_bytes(aes_key@), fold_email(email_bytes@), 16384);
            s@ == url_safe_no_pad_encoding(seq![block[0], block[1], block[2], block[3], block[8], block[9], block[10], block[11]])
        },
{
    proof {
        lemma_user_hash_words(email_bytes@, aes_key@);
    }
    let key_bytes = i32a_to_bin(aes_key);
    let mut h: Vec<u8> = vec![0u8; 16];
    let mut i: usize = 0;
    assert(email_bytes@.subrange(0, 0) =~= Seq::<u8>::empty());
    assert(h@ =~= fold_email(Seq::<u8>::empty()));
    while i < email_bytes.len()
        invariant
            i <= email_bytes@.len(),
            h@ == fold_email(email_bytes@.subrange(0, i as int)),
            h@.len() == 16,
        decreases email_bytes@.len() - i,
    {
        let k = i % 16;
        let x = h[k] ^ email_bytes[i];
        h[k] = x;
        i = i + 1;
        proof {
            let e = email_bytes@.subrange(0, i as int);
            assert(e.drop_last() =~= email_bytes@.subrange(0, i - 1));
            assert(fold_email(e).len() == 16) by {
                lemma_fold_email_len(e);
            }
        }
        assert(h@ =~= fold_email(email_bytes@.subrange(0, i as int)));
    }
    assert(email_bytes@.subrange(0, i as int) =~= email_bytes@);
    let ghost folded = h@;
    let iv = AES_ZERO_IV;
    assert(iv@ =~= zero_block());
    let mut round: u32 = 0;
    while round < USER_HASH_ROUNDS
        invariant
            round <= USER_HASH_ROUNDS,
            iv@ == zero_block(),
            key_bytes@ == i32s_to_bytes(aes_key@),
            h@ == cbc_iterate(key_bytes@, folded, round as nat),
            h@.len() == 16,
            round > 0 ==> aes_key@.len() == 4,
        decreases USER_HASH_ROUNDS - round,
    {
        match aes_cbc_encrypt_nopadding(h.as_slice(), key_bytes.as_slice(), &iv) {
            Ok(next) => {
                h = next;
            },
            Err(e) => {
                return Err(e);
            },
        }
        round = round + 1;
    }
    let h32_out = bin_to_i32a(h.as_slice());
    let pair: Vec<i32> = vec![h32_out[0], h32_out[2]];
    let result_bytes = i32a_to_bin(pair.as_slice());
    proof {
        let b = h@;
        lemma_i32_bytes_of_be_at(b, 0);
        lemma_i32_bytes_of_be_at(b, 8);
        assert(h32_out@[0] == be_i32_at(b, 0));
        assert(h32_out@[2] == be_i32_at(b, 8));
        assert forall|j: int| 0 <= j < 8 implies #[trigger] result_bytes@[j] == (b.subrange(0, 4) + b.subrange(8, 12))[j] by {
            assert(result_bytes@[j] == i32_byte(pair@[j / 4], j % 4));
        }
        assert(result_bytes@ =~= b.subrange(0, 4) + b.subrange(8, 12));
        assert(b.subrange(0, 4) + b.subrange(8, 12) =~= seq![b[0], b[1], b[2], b[3], b[8], b[9], b[10], b[11]]);
    }
    Ok(url_base64_encode(result_bytes.as_slice()))
}

/// The user hash is made of 32-bit words 0 and 2 of the e-mail block after
/// 16384 AES-CBC rounds: bytes 0, 1, 2, 3 and 8, 9, 10, 11 of that block, in
/// URL-safe base64; a password key of any length but four words is refused.
pub proof fn lemma_user_hash_words(email: Seq<u8>, aes_key: Seq<i32>)
    ensures
        spec_user_hash(email, aes_key) is Ok <==> aes_key.len() == 4,
        aes_key.len() == 4 ==> {
            let block = cbc_iterate(i32s_to_bytes(aes_key), fold_email(email), 16384);
            spec_user_hash(email, aes_key) == Ok::<Seq<char>, CryptoError>(url_safe_no_pad_encoding(
                block.subrange(0, 4) + block.subrange(8, 12),
            ))
        },
{
}

proof fn lemma_fold_email_len(e: Seq<u8>)
    ensures
        fold_email(e).len() == 16,
    decreases e.len(),
{
    if e.len() > 0 {
        lemma_fold_email_len(e.drop_last());
    }
}


/// The initial block of the legacy master-key derivation.
pub open spec fn master_key_seed() -> Seq<i32> {
    seq![-1815844893i32, 2108737444i32, -776061055i32, 22203222i32]
}

/// Chunk `c` of `p`, 16 bytes, zero-filled past the end of `p`.
pub open spec fn padded_chunk(p: Seq<u8>, c: int) -> Seq<u8> {
    Seq::new(16, |j: int| if 16 * c + j < p.len() { p[16 * c + j] } else { 0u8 })
}

/// The number of 16-byte chunks that `len` bytes split into (the last may be short).
pub open spec fn chunk_count(len: nat) -> nat {
    (len + 15) / 16
}

/// Every byte of the password goes into the derivation: the chunks cover
/// the whole password (each byte is in a chunk that is used, at its place),
/// and no chunk lies wholly past its end.
pub proof fn lemma_chunks_cover_password(p: Seq<u8>)
    ensures
        16 * chunk_count(p.len()) >= p.len(),
        p.len() > 0 ==> 16 * (chunk_count(p.len()) - 1) < p.len(),
        p.len() == 0 ==> chunk_count(p.len()) == 0,
        forall|i: int| 0 <= i < p.len() ==>
            #[trigger] padded_chunk(p, i / 16)[i % 16] == p[i] && 0 <= i / 16 < chunk_count(p.len()),
{
    let n = p.len();
    assert(16 * ((n + 15) / 16) >= n) by (nonlinear_arith);
    assert(n > 0 ==> 16 * ((n + 15) / 16 - 1) < n) by (nonlinear_arith);
    assert forall|i: int| 0 <= i < p.len() implies
        #[trigger] padded_chunk(p, i / 16)[i % 16] == p[i] && 0 <= i / 16 < chunk_count(p.len()) by {
        assert(16 * (i / 16) + i % 16 == i) by (nonlinear_arith);
        assert(0 <= i % 16 < 16) by (nonlinear_arith);
        assert(i / 16 < (n + 15) / 16) by (nonlinear_arith)
            requires
                0 <= i < n;
        assert(i / 16 >= 0) by (nonlinear_arith)
            requires
                i >= 0;
    }
}

/// `pk` after being encrypted with each of the first `c` chunks of `p` as the
/// key, in order (AES-128-CBC, zero IV).
pub open spec fn encrypt_with_chunks(pk: Seq<u8>, p: Seq<u8>, c: nat) -> Seq<u8>
    decreases c,
{
    if c == 0 {
        pk
    } else {
        aes128_cbc_encrypt(padded_chunk(p, c - 1), zero_block(), encrypt_with_chunks(pk, p, (c - 1) as nat))
    }
}

/// `n` rounds, each encrypting with every chunk of the password in turn.
pub open spec fn master_key_rounds(pk: Seq<u8>, p: Seq<u8>, n: nat) -> Seq<u8>
    decreases n,
{
    if n == 0 {
        pk
    } else {
        encrypt_with_chunks(master_key_rounds(pk, p, (n - 1) as nat), p, chunk_count(p.len()))
    }
}

/// Number of rounds in the legacy master-key derivation.
pub const MASTER_KEY_ROUNDS: u32 = 65536;

/// The legacy (v1) password key: the fixed seed block, run through 65536
/// rounds of encryption with each 16-byte chunk of the password key.
pub open spec fn spec_prepare_master_key(password_key: Seq<i32>) -> Seq<i32> {
    bytes_to_i32s(master_key_rounds(i32s_to_bytes(master_key_seed()), i32s_to_bytes(password_key), MASTER_KEY_ROUNDS as nat))
}

/// Encrypts `pk` with every chunk of `pass` in turn.
fn encrypt_with_all_chunks(pk: Vec<u8>, pass: &[u8]) -> (r: Vec<u8>)
    requires
        pk@.len() == 16,
    ensures
        r@ == encrypt_with_chunks(pk@, pass@, chunk_count(pass@.len() as nat)),
        r@ == encrypt_with_chunks(pk@, pass@, ((pass@.len() + 15) / 16) as nat),
        r@.len() == 16,
{
    proof {
        lemma_chunks_cover_password(pass@);
    }
    let n = pass.len() / 16 + if pass.len() % 16 == 0 { 0 } else { 1 };
    let mut cur = pk;
    let iv = AES_ZERO_IV;
    assert(iv@ =~= zero_block());
    let mut c: usize = 0;
    while c < n
        invariant
            n == chunk_count(pass@.len() as nat),
            pass@.len() <= usize::MAX,
            c <= n,
            iv@ == zero_block(),
            cur@ == encrypt_with_chunks(pk@, pass@, c as nat),
            cur@.len() == 16,
        decreases n - c,
    {
        assert(16 * c < pass@.len()) by (nonlinear_arith)
            requires c < n, n == (pass@.len() + 15) / 16;
        let start = 16 * c;
        let remaining = pass.len() - start;
        let mut chunk: Vec<u8> = Vec::with_capacity(16);
        let mut j: usize = 0;
        while j < 16
            invariant
                start == 16 * c,
                start < pass@.len(),
                remaining == pass@.len() - start,
                j <= 16,
                chunk@ == padded_chunk(pass@, c as int).subrange(0, j as int),
            decreases 16 - j,
        {
            if j < remaining {
                chunk.push(pass[start + j]);
            } else {
                chunk.push(0u8);
            }
            j = j + 1;
            assert(chunk@ =~= padded_chunk(pass@, c as int).subrange(0, j as int));
        }
        assert(chunk@ =~= padded_chunk(pass@, c as int));
        match aes_cbc_encrypt_nopadding(cur.as_slice(), chunk.as_slice(), &iv) {
            Ok(next) => {
                cur = next;
            },
            Err(_) => {
                assert(false);
            },
        }
        c = c + 1;
    }
    cur
}

/// Derives the legacy (v1) password key from the password packed into integers.
pub fn mega_prepare_master_key(password_key: &[i32]) -> (r: Result<Vec<i32>, CryptoError>)
    requires
        password_key@.len() * 4 <= usize::MAX,
    ensures
        r matches Ok(v) && v@ == spec_prepare_master_key(password_key@) && v@.len() == 4,
{
    let pkey: Vec<i32> = vec![-1815844893i32, 2108737444i32, -776061055i32, 22203222i32];
    assert(pkey@ =~= master_key_seed());
    let mut pkey_bytes = i32a_to_bin(pkey.as_slice());
    let pass_bytes = i32a_to_bin(password_key);
    let mut round: u32 = 0;
    while round < MASTER_KEY_ROUNDS
        invariant
            round <= MASTER_KEY_ROUNDS,
            pass_bytes@ == i32s_to_bytes(password_key@),
            pkey_bytes@ == master_key_rounds(i32s_to_bytes(master_key_seed()), pass_bytes@, round as nat),
            pkey_bytes@.len() == 16,
        decreases MASTER_KEY_ROUNDS - round,
    {
        pkey_bytes = encrypt_with_all_chunks(pkey_bytes, pass_bytes.as_slice());
        round = round + 1;
    }
    Ok(bin_to_i32a(pkey_bytes.as_slice()))
}

/// ECB decryption of the first `n` 16-byte chunks of `data`, concatenated.
pub open spec fn ecb_decrypt_chunks(key: Seq<u8>, data: Seq<u8>, n: int) -> Seq<u8>
    decreases n,
{
    if n <= 0 {
        Seq::empty()
    } else {
        ecb_decrypt_chunks(key, data, n - 1) + aes128_ecb_decrypt(key, data.subrange(16 * (n - 1), 16 * n))
    }
}

/// ECB encryption of the first `n` 16-byte chunks of `data`, concatenated.
pub open spec fn ecb_encrypt_chunks(key: Seq<u8>, data: Seq<u8>, n: int) -> Seq<u8>
    decreases n,
{
    if n <= 0 {
        Seq::empty()
    } else {
        ecb_encrypt_chunks(key, data, n - 1) + aes128_ecb_encrypt(key, data.subrange(16 * (n - 1), 16 * n))
    }
}

/// Decryption of a key blob chunk by chunk; a trailing partial chunk is
/// dropped, and a wrong key length is only noticed when there is a chunk.
pub open spec fn spec_decrypt_key(data: Seq<u8>, key: Seq<u8>) -> Result<Seq<u8>, CryptoError> {
    if data.len() / 16 == 0 {
        Ok(Seq::empty())
    } else if key.len() != 16 {
        Err(key_length_error(key.len()))
    } else {
        Ok(ecb_decrypt_chunks(key, data, (data.len() / 16) as int))
    }
}

/// Encryption of a key blob chunk by chunk; a trailing partial chunk is
/// dropped, and a wrong key length is only noticed when there is a chunk.
pub open spec fn spec_encrypt_key(data: Seq<u8>, key: Seq<u8>) -> Result<Seq<u8>, CryptoError> {
    if data.len() / 16 == 0 {
        Ok(Seq::empty())
    } else if key.len() != 16 {
        Err(key_length_error(key.len()))
    } else {
        Ok(ecb_encrypt_chunks(key, data, (data.len() / 16) as int))
    }
}

proof fn lemma_ecb_decrypt_chunks_prefix(key: Seq<u8>, a: Seq<u8>, b: Seq<u8>, n: int)
    requires
        0 <= n,
        16 * n <= a.len(),
        16 * n <= b.len(),
        a.subrange(0, 16 * n) == b.subrange(0, 16 * n),
    ensures
        ecb_decrypt_chunks(key, a, n) == ecb_decrypt_chunks(key, b, n),
    decreases n,
{
    if n > 0 {
        assert(a.subrange(0, 16 * (n - 1)) =~= a.subrange(0, 16 * n).subrange(0, 16 * (n - 1)));
        assert(b.subrange(0, 16 * (n - 1)) =~= b.subrange(0, 16 * n).subrange(0, 16 * (n - 1)));
        lemma_ecb_decrypt_chunks_prefix(key, a, b, n - 1);
        assert(a.subrange(16 * (n - 1), 16 * n) =~= a.subrange(0, 16 * n).subrange(16 * (n - 1), 16 * n));
        assert(b.subrange(16 * (n - 1), 16 * n) =~= b.subrange(0, 16 * n).subrange(16 * (n - 1), 16 * n));
    }
}

/// Decrypts a key blob with AES-ECB, 16 bytes at a time.
pub fn decrypt_key(encrypted: &[u8], key: &[u8]) -> (r: Result<Vec<u8>, CryptoError>)
    ensures
        bytes_result(r) == spec_decrypt_key(encrypted@, key@),
{
    let n = encrypted.len() / BLOCK_SIZE;
    let mut result: Vec<u8> = Vec::with_capacity(encrypted.len());
    let mut i: usize = 0;
    while i < n
        invariant
            n == encrypted@.len() / 16,
            encrypted@.len() <= usize::MAX,
            i <= n,
            i > 0 ==> key@.len() == 16,
            result@ == ecb_decrypt_chunks(key@, encrypted@, i as int),
        decreases n - i,
    {
        assert(16 * i + 16 <= encrypted@.len()) by (nonlinear_arith)
            requires i < n, n == encrypted@.len() / 16;
        let chunk = slice_subrange(encrypted, 16 * i, 16 * i + 16);
        match aes_ecb_decrypt_nopadding(chunk, key) {
            Ok(d) => {
                let mut k: usize = 0;
                let ghost before = result@;
                while k < d.len()
                    invariant
                        k <= d@.len(),
                        result@ == before + d@.subrange(0, k as int),
                    decreases d@.len() - k,
                {
                    result.push(d[k]);
                    k = k + 1;
                    assert(result@ =~= before + d@.subrange(0, k as int));
                }
                assert(d@.subrange(0, k as int) =~= d@);
            },
            Err(e) => {
                return Err(e);
            },
        }
        i = i + 1;
    }
    Ok(result)
}

/// Encrypts a key blob with AES-ECB, 16 bytes at a time; decrypting the
/// result chunk by chunk gives back the whole chunks of the data.
pub fn encrypt_key(data: &[u8], key: &[u8]) -> (r: Result<Vec<u8>, CryptoError>)
    ensures
        bytes_result(r) == spec_encrypt_key(data@, key@),
        r matches Ok(v) ==> v@.len() == 16 * (data@.len() / 16),
        r matches Ok(v) ==> ecb_decrypt_chunks(key@, v@, (data@.len() / 16) as int)
            == data@.subrange(0, 16 * (data@.len() / 16) as int),
{
    let n = data.len() / BLOCK_SIZE;
    let mut result: Vec<u8> = Vec::with_capacity(data.len());
    let mut i: usize = 0;
    while i < n
        invariant
            n == data@.len() / 16,
            data@.len() <= usize::MAX,
            i <= n,
            i > 0 ==> key@.len() == 16,
            result@ == ecb_encrypt_chunks(key@, data@, i as int),
            result@.len() == 16 * i,
            ecb_decrypt_chunks(key@, result@, i as int) == data@.subrange(0, 16 * i),
        decreases n - i,
    {
        assert(16 * i + 16 <= data@.len()) by (nonlinear_arith)
            requires i < n, n == data@.len() / 16;
        let chunk = slice_subrange(data, 16 * i, 16 * i + 16);
        match aes_ecb_encrypt_nopadding(chunk, key) {
            Ok(e) => {
                let mut k: usize = 0;
                let ghost before = result@;
                while k < e.len()
                    invariant
                        k <= e@.len(),
                        result@ == before + e@.subrange(0, k as int),
                    decreases e@.len() - k,
                {
                    result.push(e[k]);
                    k = k + 1;
                    assert(result@ =~= before + e@.subrange(0, k as int));
                }
                assert(e@.subrange(0, k as int) =~= e@);
                proof {
                    let i1 = i + 1;
                    assert(result@.subrange(0, 16 * i) =~= before.subrange(0, 16 * i));
                    assert(before.subrange(0, 16 * i) =~= before);
                    lemma_ecb_decrypt_chunks_prefix(key@, result@, before, i as int);
                    assert(result@.subrange(16 * i, 16 * i + 16) =~= e@);
                    assert(data@.subrange(0, 16 * i1) =~= data@.subrange(0, 16 * i) + chunk@);
                }
            },
            Err(e) => {
                return Err(e);
            },
        }
        i = i + 1;
    }
    Ok(result)
}


// ---------------------------------------------------------------------------
// Encrypted `mega://enc` links
// ---------------------------------------------------------------------------

/// The first fixed key of encrypted links (18 bytes long, so AES-128 refuses it).
pub open spec fn downloader_key1() -> Seq<u8> {
    seq![0x74u8, 0x68, 0x65, 0x7f, 0x57, 0x9f, 0xbc, 0x0c, 0xc9, 0x86, 0xf1, 0xde, 0x61, 0x6d, 0x8c, 0x82, 0x70, 0xc5]
}

/// The second fixed key of encrypted links.
pub open spec fn downloader_key2() -> Seq<u8> {
    seq![0x93u8, 0xc4, 0x67, 0xe3, 0x7d, 0xb0, 0xc7, 0xa4, 0xd1, 0xbe, 0x3f, 0x81, 0x01, 0x52, 0xcb, 0x56]
}

/// The marker of the second link format.
pub open spec fn enc2_marker() -> Seq<char> {
    seq!['e', 'n', 'c', '2', '?']
}

/// The marker of the first link format.
pub open spec fn enc_marker() -> Seq<char> {
    seq!['e', 'n', 'c', '?']
}

/// `s` without its trailing zero bytes.
pub open spec fn trim_trailing_zeros(s: Seq<u8>) -> Seq<u8>
    decreases s.len(),
{
    if s.len() == 0 || s.last() != 0 { s } else { trim_trailing_zeros(s.drop_last()) }
}

/// The encrypted payload of a link: what follows the first marker up to the
/// next one (`enc2?` takes precedence over `enc?`), decoded from base64.
pub open spec fn downloader_link_payload(link: Seq<char>) -> Seq<u8> {
    let sep = if contains_seq(link, enc2_marker()) { enc2_marker() } else { enc_marker() };
    let part = match split_second(link, sep) {
        Some(p) => p,
        None => Seq::empty(),
    };
    or_empty(url_safe_no_pad_decoding(part))
}

/// The decrypted payload without its trailing zeros. Whichever key is tried
/// first, the second fixed key is the one AES-128 accepts.
pub open spec fn downloader_link_plaintext(link: Seq<char>) -> Seq<u8> {
    trim_trailing_zeros(aes128_cbc_decrypt(downloader_key2(), zero_block(), downloader_link_payload(link)))
}

/// The link that an encrypted link wraps, where it can be recovered: the
/// payload must be a non-empty whole number of blocks and the decrypted,
/// zero-trimmed bytes well-formed UTF-8.
pub open spec fn downloader_link_text(link: Seq<char>) -> Option<Seq<char>> {
    let data = downloader_link_payload(link);
    let plain = downloader_link_plaintext(link);
    if !contains_seq(link, enc2_marker()) && !contains_seq(link, enc_marker()) {
        None
    } else if data.len() == 0 || data.len() % 16 != 0 {
        None
    } else if vstd::utf8::valid_utf8(plain) {
        Some(vstd::utf8::decode_utf8(plain))
    } else {
        None
    }
}

fn trailing_zeros_end(d: &[u8]) -> (end: usize)
    ensures
        end <= d@.len(),
        d@.subrange(0, end as int) == trim_trailing_zeros(d@),
{
    let mut end = d.len();
    assert(d@.subrange(0, d@.len() as int) =~= d@);
    while end > 0 && d[end - 1] == 0
        invariant
            end <= d@.len(),
            trim_trailing_zeros(d@.subrange(0, end as int)) == trim_trailing_zeros(d@),
        decreases end,
    {
        assert(d@.subrange(0, end as int).drop_last() =~= d@.subrange(0, end - 1));
        end = end - 1;
    }
    assert(d@.subrange(0, end as int) == trim_trailing_zeros(d@.subrange(0, end as int))) by {
        if end > 0 {
            assert(d@.subrange(0, end as int).last() == d@[end - 1]);
        }
    }
    end
}

/// The start of an encrypted link of the second (`mega://enc2?`) or the
/// first (`mega://enc?`) format.
pub open spec fn downloader_prefix(second_format: bool) -> Seq<char> {
    if second_format {
        seq!['m', 'e', 'g', 'a', ':', '/', '/', 'e', 'n', 'c', '2', '?']
    } else {
        seq!['m', 'e', 'g', 'a', ':', '/', '/', 'e', 'n', 'c', '?']
    }
}

/// `b` followed by zero bytes up to `n` bytes.
pub open spec fn zero_padded_to(b: Seq<u8>, n: nat) -> Seq<u8> {
    b + Seq::new((n - b.len()) as nat, |i: int| 0u8)
}

/// Skipping positions where `pat` does not occur does not change the search.
proof fn lemma_find_skip(s: Seq<char>, pat: Seq<char>, from: int, to: int)
    requires
        0 <= from <= to,
        forall|i: int| from <= i < to ==> #[trigger] s.subrange(i, i + pat.len()) != pat,
    ensures
        find_from(s, pat, from) == find_from(s, pat, to),
    decreases to - from,
{
    if from < to {
        lemma_find_skip(s, pat, from + 1, to);
    }
}

/// A window whose last character is not the pattern's last is no match.
proof fn lemma_window_differs(s: Seq<char>, pat: Seq<char>, i: int)
    requires
        pat.len() >= 1,
        0 <= i,
        i + pat.len() <= s.len(),
        s[i + pat.len() - 1] != pat[pat.len() - 1],
    ensures
        s.subrange(i, i + pat.len()) != pat,
{
    assert(s.subrange(i, i + pat.len())[pat.len() - 1] == s[i + pat.len() - 1]);
}

/// In `prefix + t`, where `t` has no `?` and `pat` ends with `?`, the
/// search for `pat` from `from` finds it at `at` when the only `?` that a
/// window from `from` on can end at is the prefix's last character.
proof fn lemma_find_in_link(prefix: Seq<char>, t: Seq<char>, pat: Seq<char>, from: int)
    requires
        pat.len() >= 1,
        pat.last() == '?',
        0 <= from,
        from + pat.len() > prefix.len(),
        forall|i: int| 0 <= i < t.len() ==> t[i] != '?',
    ensures
        find_from(prefix + t, pat, from) is None,
{
    let s = prefix + t;
    let to: int = if from > s.len() - pat.len() + 1 { from } else { s.len() - pat.len() + 1 };
    assert forall|i: int| from <= i < to implies #[trigger] s.subrange(i, i + pat.len()) != pat by {
        let j = i + pat.len() - 1;
        assert(j >= prefix.len());
        assert(s[j] == t[j - prefix.len()]);
        lemma_window_differs(s, pat, i);
    }
    lemma_find_skip(s, pat, from, to);
}

/// Trailing zero padding is what trimming removes.
proof fn lemma_trim_padding(b: Seq<u8>, n: nat)
    requires
        b.len() <= n,
        b.len() == 0 || b.last() != 0,
    ensures
        trim_trailing_zeros(zero_padded_to(b, n)) == b,
    decreases n,
{
    if n > b.len() {
        let z = zero_padded_to(b, n);
        assert(z.last() == 0);
        assert(z.drop_last() =~= zero_padded_to(b, (n - 1) as nat));
        lemma_trim_padding(b, (n - 1) as nat);
    } else {
        assert(zero_padded_to(b, n) =~= b);
    }
}

/// The UTF-8 encoding of a text that does not end in a NUL character does
/// not end in a zero byte.
proof fn lemma_utf8_last_byte(p: Seq<char>)
    requires
        p.len() >= 1,
        p.last() != '\0',
    ensures
        encode_utf8(p).len() >= 1,
        encode_utf8(p).last() != 0,
    decreases p.len(),
{
    if p.len() == 1 {
        let c = p[0] as u32;
        vstd::utf8::char_is_scalar(p[0]);
        assert(p.last() == p[0]);
        assert(p[0] != '\0');
        vstd::utf8::char_u32_cast(p[0], c);
        assert(c != 0) by {
            if c == 0 {
                assert((0u32 as char) == '\0');
            }
        }
        assert(p.drop_first() =~= Seq::<char>::empty());
        assert((c <= 0x7F && c != 0) ==> (c & 0x7F) as u8 != 0) by (bit_vector);
        assert((0x80u8 | (c & 0x3F) as u8) != 0) by (bit_vector);
        let e = vstd::utf8::encode_scalar(c);
        assert(vstd::utf8::encode_utf8(p.drop_first()) =~= Seq::<u8>::empty());
        assert(encode_utf8(p) =~= e);
        if vstd::utf8::has_width_1_encoding(c) {
            assert(e.last() == (c & 0x7F) as u8);
        } else {
            assert(e.last() == vstd::utf8::last_continuation_byte(c));
        }
    } else {
        let rest = p.drop_first();
        assert(rest.last() == p.last());
        lemma_utf8_last_byte(rest);
    }
}

/// An encrypted link made from a text round-trips: take a text that does
/// not end in NUL, its UTF-8 bytes zero-padded to whole blocks, a payload
/// that decrypts under the second fixed key to those bytes (as the output of
/// `aes_cbc_encrypt_nopadding` of those bytes under that key does), and a
/// URL-safe base64 text of the payload (as `url_base64_encode` of it is);
/// the link made of either prefix and that text decrypts to the text.
pub proof fn lemma_downloader_link_roundtrip(p: Seq<char>, second_format: bool, t: Seq<char>, payload: Seq<u8>, blocks: nat)
    requires
        p.len() == 0 || p.last() != '\0',
        blocks >= 1,
        encode_utf8(p).len() <= 16 * blocks,
        payload.len() == 16 * blocks,
        aes128_cbc_decrypt(downloader_key2(), zero_block(), payload) == zero_padded_to(encode_utf8(p), 16 * blocks),
        url_safe_no_pad_decoding(t) == Some(payload),
        forall|i: int| 0 <= i < t.len() ==> is_url_safe_b64_char(#[trigger] t[i]),
    ensures
        downloader_link_text(downloader_prefix(second_format) + t) == Some(p),
{
    assert forall|i: int| 0 <= i < t.len() implies t[i] != '?' by {
        assert(is_url_safe_b64_char(t[i]));
    }
    let prefix = downloader_prefix(second_format);
    let link = prefix + t;
    let e2 = enc2_marker();
    let e1 = enc_marker();
    // Where the markers are found.
    if second_format {
        assert forall|i: int| 0 <= i < 7 implies #[trigger] link.subrange(i, i + e2.len()) != e2 by {
            lemma_window_differs(link, e2, i);
        }
        lemma_find_skip(link, e2, 0, 7);
        assert(link.subrange(7, 12) =~= e2);
        assert(find_from(link, e2, 0) == Some(7int));
        lemma_find_in_link(prefix, t, e2, 12);
        assert(link.subrange(12, link.len() as int) =~= t);
        assert(split_second(link, e2) == Some(t));
    } else {
        assert forall|i: int| 0 <= i < 6 implies #[trigger] link.subrange(i, i + e2.len()) != e2 by {
            lemma_window_differs(link, e2, i);
        }
        lemma_find_skip(link, e2, 0, 6);
        assert(link.subrange(6, 11)[0] == '/');
        assert(link.subrange(6, 11) != e2);
        lemma_find_in_link(prefix, t, e2, 7);
        assert(find_from(link, e2, 6) == find_from(link, e2, 7));
        assert(!contains_seq(link, e2));
        assert forall|i: int| 0 <= i < 7 implies #[trigger] link.subrange(i, i + e1.len()) != e1 by {
            lemma_window_differs(link, e1, i);
        }
        lemma_find_skip(link, e1, 0, 7);
        assert(link.subrange(7, 11) =~= e1);
        assert(find_from(link, e1, 0) == Some(7int));
        lemma_find_in_link(prefix, t, e1, 11);
        assert(link.subrange(11, link.len() as int) =~= t);
        assert(split_second(link, e1) == Some(t));
    }
    assert(downloader_link_payload(link) == payload);
    // What the payload decrypts to.
    let b = encode_utf8(p);
    if p.len() >= 1 {
        lemma_utf8_last_byte(p);
    }
    lemma_trim_padding(b, 16 * blocks);
    assert(downloader_link_plaintext(link) == b);
    vstd::utf8::encode_utf8_valid_utf8(p);
    vstd::utf8::encode_utf8_decode_utf8(p);
}

/// Decrypts a `mega://enc?` or `mega://enc2?` link into the link it wraps.
pub fn decrypt_mega_downloader_link(link: &str) -> (r: Result<String, CryptoError>)
    ensures
        r is Ok <==> downloader_link_text(link@) is Some,
        r matches Ok(s) ==> downloader_link_text(link@) == Some(s@),
        !contains_seq(link@, enc2_marker()) && !contains_seq(link@, enc_marker()) ==>
            (r matches Err(CryptoError::InvalidInput(m)) && m@ == "Not a mega://enc link"@),
        contains_seq(link@, enc2_marker()) || contains_seq(link@, enc_marker()) ==> {
            let data = downloader_link_payload(link@);
            let plain = downloader_link_plaintext(link@);
            &&& data.len() == 0 ==> (r matches Err(CryptoError::InvalidInput(m))
                && m@ == "Empty encrypted data"@)
            &&& (data.len() > 0 && data.len() % 16 != 0) ==> (r matches Err(CryptoError::InvalidDataLength))
            &&& (data.len() > 0 && data.len() % 16 == 0 && vstd::utf8::valid_utf8(plain)) ==>
                (r matches Ok(s) && s@ == vstd::utf8::decode_utf8(plain))
            &&& (data.len() > 0 && data.len() % 16 == 0 && !vstd::utf8::valid_utf8(plain)) ==>
                (r matches Err(CryptoError::InvalidInput(m)) && m@ == "Decrypted data is not valid UTF-8"@)
        },
{
    let key1: [u8; 18] = [0x74u8, 0x68, 0x65, 0x7f, 0x57, 0x9f, 0xbc, 0x0c, 0xc9, 0x86, 0xf1, 0xde, 0x61, 0x6d, 0x8c, 0x82, 0x70, 0xc5];
    let key2: [u8; 16] = [0x93u8, 0xc4, 0x67, 0xe3, 0x7d, 0xb0, 0xc7, 0xa4, 0xd1, 0xbe, 0x3f, 0x81, 0x01, 0x52, 0xcb, 0x56];
    assert(key1@ =~= downloader_key1());
    assert(key2@ =~= downloader_key2());
    let chars = str_chars(link);
    let enc2: Vec<char> = vec!['e', 'n', 'c', '2', '?'];
    let enc: Vec<char> = vec!['e', 'n', 'c', '?'];
    assert(enc2@ =~= enc2_marker());
    assert(enc@ =~= enc_marker());
    let has_enc2 = find_chars(chars.as_slice(), enc2.as_slice(), 0).is_some();
    let has_enc = find_chars(chars.as_slice(), enc.as_slice(), 0).is_some();
    if !has_enc2 && !has_enc {
        return Err(CryptoError::InvalidInput(String::from_str("Not a mega://enc link")));
    }
    let sep: &[char] = if has_enc2 { enc2.as_slice() } else { enc.as_slice() };
    let total = chars.len();
    assert(chars@.len() == total);
    let part: Vec<char> = match find_chars(chars.as_slice(), sep, 0) {
        Some(p) => {
            let start = p + sep.len();
            match find_chars(chars.as_slice(), sep, start) {
                Some(q) => slice_to_vec(slice_subrange(chars.as_slice(), start, q)),
                None => slice_to_vec(slice_subrange(chars.as_slice(), start, chars.len())),
            }
        },
        None => Vec::new(),
    };
    let part_text = crate::text::chars_to_string(part.as_slice());
    let data = url_base64_decode(part_text.as_str());
    if data.len() == 0 {
        return Err(CryptoError::InvalidInput(String::from_str("Empty encrypted data")));
    }
    let zero_iv = AES_ZERO_IV;
    assert(zero_iv@ =~= zero_block());
    let first = if has_enc2 {
        aes_cbc_decrypt_nopadding(data.as_slice(), &key2, &zero_iv)
    } else {
        aes_cbc_decrypt_nopadding(data.as_slice(), &key1, &zero_iv)
    };
    let decrypted = match first {
        Ok(d) => d,
        Err(_) => {
            let second = if has_enc2 {
                aes_cbc_decrypt_nopadding(data.as_slice(), &key1, &zero_iv)
            } else {
                aes_cbc_decrypt_nopadding(data.as_slice(), &key2, &zero_iv)
            };
            match second {
                Ok(d) => d,
                Err(e) => {
                    return Err(e);
                },
            }
        },
    };
    let end = trailing_zeros_end(decrypted.as_slice());
    let trimmed = slice_to_vec(slice_subrange(decrypted.as_slice(), 0, end));
    match utf8_string(trimmed) {
        Some(s) => Ok(s),
        None => Err(CryptoError::InvalidInput(String::from_str("Decrypted data is not valid UTF-8"))),
    }
}

} // verus!
