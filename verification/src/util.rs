//! Byte and text helpers shared by the rest of the library: big-endian
//! integer packing, base64 and hex, random identifiers, back-off delays,
//! file names and the multi-precision integers used by RSA.

use vstd::prelude::*;
use vstd::arithmetic::power::pow;
use vstd::slice::slice_subrange;
use vstd::utf8::encode_utf8;
use base64::Engine;
use byteorder::ByteOrder;
use rand::Rng;
use sha2::Digest;
use crate::text::{digit_char, digit_to_char, push_decimal, str_chars, chars_to_string, decimal};

verus! {

// ---------------------------------------------------------------------------
// Big-endian packing of 32-bit integers
// ---------------------------------------------------------------------------

/// The unsigned value of four bytes, most significant first.
pub open spec fn be_u32(b0: u8, b1: u8, b2: u8, b3: u8) -> u32 {
    ((b0 as u32) << 24u32) | ((b1 as u32) << 16u32) | ((b2 as u32) << 8u32) | (b3 as u32)
}

/// The `i32` stored big-endian at `b[k..k + 4]`.
pub open spec fn be_i32_at(b: Seq<u8>, k: int) -> i32 {
    be_u32(b[k], b[k + 1], b[k + 2], b[k + 3]) as i32
}

/// Byte `j` (0 = most significant) of the big-endian encoding of `v`.
pub open spec fn i32_byte(v: i32, j: int) -> u8 {
    if j == 0 {
        ((v as u32) >> 24u32) as u8
    } else if j == 1 {
        ((v as u32) >> 16u32) as u8
    } else if j == 2 {
        ((v as u32) >> 8u32) as u8
    } else {
        (v as u32) as u8
    }
}

/// The integers encoded big-endian in the whole 4-byte groups of `b`
/// (a trailing partial group is ignored).
pub open spec fn bytes_to_i32s(b: Seq<u8>) -> Seq<i32> {
    Seq::new(b.len() / 4, |i: int| be_i32_at(b, 4 * i))
}

/// The big-endian encoding of a sequence of integers, four bytes each.
pub open spec fn i32s_to_bytes(v: Seq<i32>) -> Seq<u8> {
    Seq::new(4 * v.len(), |j: int| i32_byte(v[j / 4], j % 4))
}

proof fn lemma_be_i32_bytes(v: i32)
    ensures
        be_u32(i32_byte(v, 0), i32_byte(v, 1), i32_byte(v, 2), i32_byte(v, 3)) as i32 == v,
{
    let u = v as u32;
    assert((((((u >> 24u32) as u8) as u32) << 24u32) | (((((u >> 16u32) as u8) as u32) << 16u32))
        | (((((u >> 8u32) as u8) as u32) << 8u32)) | (((u as u8) as u32))) == u) by (bit_vector);
    assert((u as i32) == v) by (bit_vector)
        requires u == v as u32;
}

proof fn lemma_bytes_be_i32(b0: u8, b1: u8, b2: u8, b3: u8)
    ensures
        i32_byte(be_u32(b0, b1, b2, b3) as i32, 0) == b0,
        i32_byte(be_u32(b0, b1, b2, b3) as i32, 1) == b1,
        i32_byte(be_u32(b0, b1, b2, b3) as i32, 2) == b2,
        i32_byte(be_u32(b0, b1, b2, b3) as i32, 3) == b3,
{
    let u = be_u32(b0, b1, b2, b3);
    assert(((u as i32) as u32) == u) by (bit_vector);
    assert(((u >> 24u32) as u8) == b0 && ((u >> 16u32) as u8) == b1 && ((u >> 8u32) as u8) == b2
        && (u as u8) == b3) by (bit_vector)
        requires u == ((b0 as u32) << 24u32) | ((b1 as u32) << 16u32) | ((b2 as u32) << 8u32) | (b3 as u32);
}

/// The bytes of an integer read from `b[k..k + 4]` are those four bytes.
pub proof fn lemma_i32_bytes_of_be_at(b: Seq<u8>, k: int)
    requires
        0 <= k,
        k + 4 <= b.len(),
    ensures
        i32_byte(be_i32_at(b, k), 0) == b[k],
        i32_byte(be_i32_at(b, k), 1) == b[k + 1],
        i32_byte(be_i32_at(b, k), 2) == b[k + 2],
        i32_byte(be_i32_at(b, k), 3) == b[k + 3],
{
    lemma_bytes_be_i32(b[k], b[k + 1], b[k + 2], b[k + 3]);
}

/// The bytes of an XOR of integers are the XORs of their bytes.
pub proof fn lemma_i32_byte_xor(a: i32, b: i32)
    ensures
        i32_byte(a ^ b, 0) == i32_byte(a, 0) ^ i32_byte(b, 0),
        i32_byte(a ^ b, 1) == i32_byte(a, 1) ^ i32_byte(b, 1),
        i32_byte(a ^ b, 2) == i32_byte(a, 2) ^ i32_byte(b, 2),
        i32_byte(a ^ b, 3) == i32_byte(a, 3) ^ i32_byte(b, 3),
{
    assert((((a ^ b) as u32) >> 24u32) as u8 == (((a as u32) >> 24u32) as u8) ^ (((b as u32) >> 24u32) as u8)) by (bit_vector);
    assert((((a ^ b) as u32) >> 16u32) as u8 == (((a as u32) >> 16u32) as u8) ^ (((b as u32) >> 16u32) as u8)) by (bit_vector);
    assert((((a ^ b) as u32) >> 8u32) as u8 == (((a as u32) >> 8u32) as u8) ^ (((b as u32) >> 8u32) as u8)) by (bit_vector);
    assert(((a ^ b) as u32) as u8 == ((a as u32) as u8) ^ ((b as u32) as u8)) by (bit_vector);
}

/// Packing integers into bytes and reading them back gives the integers.
pub proof fn lemma_i32s_bytes_roundtrip(v: Seq<i32>)
    ensures
        bytes_to_i32s(i32s_to_bytes(v)) == v,
{
    let b = i32s_to_bytes(v);
    assert forall|i: int| 0 <= i < v.len() implies #[trigger] bytes_to_i32s(b)[i] == v[i] by {
        lemma_be_i32_bytes(v[i]);
        assert(b[4 * i] == i32_byte(v[i], 0));
        assert(b[4 * i + 1] == i32_byte(v[i], 1));
        assert(b[4 * i + 2] == i32_byte(v[i], 2));
        assert(b[4 * i + 3] == i32_byte(v[i], 3));
    }
    assert(bytes_to_i32s(b) =~= v);
}

/// Reading integers out of bytes and packing them again gives back the
/// bytes of the whole 4-byte groups.
pub proof fn lemma_bytes_i32s_roundtrip(b: Seq<u8>)
    ensures
        i32s_to_bytes(bytes_to_i32s(b)) == b.subrange(0, 4 * (b.len() / 4) as int),
{
    let v = bytes_to_i32s(b);
    let r = i32s_to_bytes(v);
    assert forall|j: int| 0 <= j < r.len() implies #[trigger] r[j] == b[j] by {
        let i = j / 4;
        lemma_bytes_be_i32(b[4 * i], b[4 * i + 1], b[4 * i + 2], b[4 * i + 3]);
    }
    assert(r =~= b.subrange(0, 4 * (b.len() / 4) as int));
}

/// `byteorder`'s `BigEndian::read_i32`: the `i32` in the first four bytes.
#[verifier::external_body]
fn be_read_i32(buf: &[u8]) -> (r: i32)
    requires
        buf@.len() >= 4,
    ensures
        r == be_i32_at(buf@, 0),
{
    byteorder::BigEndian::read_i32(buf)
}

/// `byteorder`'s `BigEndian::write_i32`, into a fresh 4-byte buffer.
#[verifier::external_body]
fn be_write_i32(v: i32) -> (r: [u8; 4])
    ensures
        r@ == seq![i32_byte(v, 0), i32_byte(v, 1), i32_byte(v, 2), i32_byte(v, 3)],
{
    let mut buf = [0u8; 4];
    byteorder::BigEndian::write_i32(&mut buf, v);
    buf
}

/// Converts a big-endian byte slice to the integers of its whole 4-byte groups.
pub fn bin_to_i32a(bin: &[u8]) -> (r: Vec<i32>)
    ensures
        r@ == bytes_to_i32s(bin@),
{
    let len = bin.len() / 4;
    let mut out: Vec<i32> = Vec::with_capacity(len);
    let mut i: usize = 0;
    while i < len
        invariant
            len == bin@.len() / 4,
            bin@.len() <= usize::MAX,
            i <= len,
            out@.len() == i,
            forall|k: int| 0 <= k < i ==> out@[k] == #[trigger] be_i32_at(bin@, 4 * k),
        decreases len - i,
    {
        assert(i * 4 + 4 <= bin@.len()) by (nonlinear_arith)
            requires i < len, len == bin@.len() / 4;
        let chunk = slice_subrange(bin, i * 4, i * 4 + 4);
        let v = be_read_i32(chunk);
        assert(be_i32_at(chunk@, 0) == be_i32_at(bin@, 4 * i));
        out.push(v);
        i = i + 1;
    }
    assert(out@ =~= bytes_to_i32s(bin@));
    out
}

/// Converts integers to their big-endian bytes, four per integer.
pub fn i32a_to_bin(values: &[i32]) -> (r: Vec<u8>)
    requires
        values@.len() * 4 <= usize::MAX,
    ensures
        r@ == i32s_to_bytes(values@),
{
    let mut out: Vec<u8> = Vec::with_capacity(values.len() * 4);
    let mut i: usize = 0;
    while i < values.len()
        invariant
            i <= values@.len(),
            out@ == i32s_to_bytes(values@.subrange(0, i as int)),
        decreases values@.len() - i,
    {
        let b = be_write_i32(values[i]);
        out.push(b[0]);
        out.push(b[1]);
        out.push(b[2]);
        out.push(b[3]);
        i = i + 1;
        assert(out@ =~= i32s_to_bytes(values@.subrange(0, i as int)));
    }
    assert(values@.subrange(0, i as int) =~= values@);
    out
}

// ---------------------------------------------------------------------------
// Big-endian 64-bit and 16-bit integers
// ---------------------------------------------------------------------------

/// The eight big-endian bytes of `v`.
pub open spec fn u64_be_bytes(v: u64) -> Seq<u8> {
    Seq::new(8, |j: int| (v >> ((56 - 8 * j) as u64)) as u8)
}

/// `byteorder`'s `BigEndian::write_u64`, into a fresh 8-byte buffer.
#[verifier::external_body]
fn be_write_u64(v: u64) -> (r: [u8; 8])
    ensures
        r@ == u64_be_bytes(v),
{
    let mut buf = [0u8; 8];
    byteorder::BigEndian::write_u64(&mut buf, v);
    buf
}

/// `byteorder`'s `BigEndian::read_u16`: the `u16` in the first two bytes.
#[verifier::external_body]
fn be_read_u16(buf: &[u8]) -> (r: u16)
    requires
        buf@.len() >= 2,
    ensures
        r == buf@[0] as nat * 256 + buf@[1] as nat,
{
    byteorder::BigEndian::read_u16(buf)
}

/// The eight big-endian bytes of `val`.
pub fn long_to_bytearray(val: u64) -> (r: Vec<u8>)
    ensures
        r@ == u64_be_bytes(val),
{
    let b = be_write_u64(val);
    let mut out: Vec<u8> = Vec::with_capacity(8);
    let mut i: usize = 0;
    while i < 8
        invariant
            i <= 8,
            b@ == u64_be_bytes(val),
            out@ == b@.subrange(0, i as int),
        decreases 8 - i,
    {
        out.push(b[i]);
        i = i + 1;
        assert(out@ =~= b@.subrange(0, i as int));
    }
    assert(out@ =~= u64_be_bytes(val));
    out
}

// ---------------------------------------------------------------------------
// Base64 (URL-safe without padding, and standard)
// ---------------------------------------------------------------------------

/// The URL-safe, unpadded base64 text of `data`, as the `base64` crate writes it.
pub uninterp spec fn url_safe_no_pad_encoding(data: Seq<u8>) -> Seq<char>;

/// The bytes that the `base64` crate's URL-safe, unpadded engine reads from
/// `text`, or `None` where it refuses the text.
pub uninterp spec fn url_safe_no_pad_decoding(text: Seq<char>) -> Option<Seq<u8>>;

/// The padded standard base64 text of `data`, as the `base64` crate writes it.
pub uninterp spec fn standard_encoding(data: Seq<u8>) -> Seq<char>;

/// The bytes that the `base64` crate's standard engine reads from `text`,
/// or `None` where it refuses the text.
pub uninterp spec fn standard_decoding(text: Seq<char>) -> Option<Seq<u8>>;

/// `base64::DecodeError`, the error of a text the engine refuses; carried opaque.
#[verifier::external_type_specification]
#[verifier::external_body]
pub struct ExBase64DecodeError(base64::DecodeError);

/// Whether a character belongs to the URL-safe base64 alphabet
/// (`A`-`Z`, `a`-`z`, `0`-`9`, `-`, `_`).
pub open spec fn is_url_safe_b64_char(c: char) -> bool {
    ('A' <= c && c <= 'Z') || ('a' <= c && c <= 'z') || ('0' <= c && c <= '9') || c == '-' || c == '_'
}

/// `base64::engine::general_purpose::URL_SAFE_NO_PAD.encode`; decoding the
/// text with the same engine gives back the bytes, and the text is made of
/// the URL-safe alphabet only (no padding is written).
#[verifier::external_body]
fn url_safe_no_pad_encode(data: &[u8]) -> (r: String)
    ensures
        r@ == url_safe_no_pad_encoding(data@),
        url_safe_no_pad_decoding(r@) == Some(data@),
        forall|i: int| 0 <= i < r@.len() ==> is_url_safe_b64_char(#[trigger] r@[i]),
{
    base64::engine::general_purpose::URL_SAFE_NO_PAD.encode(data)
}

/// `base64::engine::general_purpose::URL_SAFE_NO_PAD.decode`.
#[verifier::external_body]
fn url_safe_no_pad_decode(text: &str) -> (r: Result<Vec<u8>, base64::DecodeError>)
    ensures
        r is Ok <==> url_safe_no_pad_decoding(text@) is Some,
        r matches Ok(v) ==> url_safe_no_pad_decoding(text@) == Some(v@),
{
    base64::engine::general_purpose::URL_SAFE_NO_PAD.decode(text)
}

/// `base64::engine::general_purpose::STANDARD.encode`; decoding the text
/// with the same engine gives back the bytes.
#[verifier::external_body]
fn standard_encode(data: &[u8]) -> (r: String)
    ensures
        r@ == standard_encoding(data@),
        standard_decoding(r@) == Some(data@),
{
    base64::engine::general_purpose::STANDARD.encode(data)
}

/// `base64::engine::general_purpose::STANDARD.decode`.
#[verifier::external_body]
fn standard_decode(text: &str) -> (r: Result<Vec<u8>, base64::DecodeError>)
    ensures
        r is Ok <==> standard_decoding(text@) is Some,
        r matches Ok(v) ==> standard_decoding(text@) == Some(v@),
{
    base64::engine::general_purpose::STANDARD.decode(text)
}

/// The decoded bytes, or nothing where the text is refused.
pub open spec fn or_empty(r: Option<Seq<u8>>) -> Seq<u8> {
    match r {
        Some(v) => v,
        None => Seq::empty(),
    }
}

/// Decodes MEGA-style URL-safe unpadded base64; refused text gives no bytes.
pub fn url_base64_decode(data: &str) -> (r: Vec<u8>)
    ensures
        r@ == or_empty(url_safe_no_pad_decoding(data@)),
{
    match url_safe_no_pad_decode(data) {
        Ok(v) => v,
        Err(_) => Vec::new(),
    }
}

/// Encodes bytes as MEGA-style URL-safe unpadded base64.
pub fn url_base64_encode(data: &[u8]) -> (r: String)
    ensures
        r@ == url_safe_no_pad_encoding(data@),
        url_safe_no_pad_decoding(r@) == Some(data@),
        forall|i: int| 0 <= i < r@.len() ==> is_url_safe_b64_char(#[trigger] r@[i]),
{
    url_safe_no_pad_encode(data)
}

/// Decodes standard base64; refused text gives no bytes.
pub fn base64_decode(data: &str) -> (r: Vec<u8>)
    ensures
        r@ == or_empty(standard_decoding(data@)),
{
    match standard_decode(data) {
        Ok(v) => v,
        Err(_) => Vec::new(),
    }
}

/// Encodes bytes as standard base64.
pub fn base64_encode(data: &[u8]) -> (r: String)
    ensures
        r@ == standard_encoding(data@),
        standard_decoding(r@) == Some(data@),
{
    standard_encode(data)
}


// ---------------------------------------------------------------------------
// Hex
// ---------------------------------------------------------------------------

/// The lower-case hex digit for `d < 16`.
pub open spec fn hex_digit_lower(d: nat) -> char {
    seq!['0', '1', '2', '3', '4', '5', '6', '7', '8', '9', 'a', 'b', 'c', 'd', 'e', 'f'][d as int]
}

/// Lower-case hex text of `data`, two digits per byte, high nibble first.
pub open spec fn hex_lower(data: Seq<u8>) -> Seq<char> {
    Seq::new(
        2 * data.len(),
        |j: int|
            if j % 2 == 0 {
                hex_digit_lower((data[j / 2] / 16) as nat)
            } else {
                hex_digit_lower((data[j / 2] % 16) as nat)
            },
    )
}

/// Whether `c` is a hex digit of either case.
pub open spec fn is_hex_char(c: char) -> bool {
    ('0' <= c <= '9') || ('a' <= c <= 'f') || ('A' <= c <= 'F')
}

/// The value of a hex digit of either case.
pub open spec fn hex_value(c: char) -> nat {
    if '0' <= c <= '9' {
        (c as u32 - '0' as u32) as nat
    } else if 'a' <= c <= 'f' {
        (c as u32 - 'a' as u32 + 10) as nat
    } else {
        (c as u32 - 'A' as u32 + 10) as nat
    }
}

/// The bytes written in hex text of either case: defined when the text has
/// an even number of characters, all of them hex digits.
pub open spec fn hex_decoding(s: Seq<char>) -> Option<Seq<u8>> {
    if s.len() % 2 == 0 && (forall|i: int| 0 <= i < s.len() ==> is_hex_char(#[trigger] s[i])) {
        Some(Seq::new(s.len() / 2, |i: int| (hex_value(s[2 * i]) * 16 + hex_value(s[2 * i + 1])) as u8))
    } else {
        None
    }
}

/// `hex::FromHexError`, the error of a text that is not hex; carried opaque.
#[verifier::external_type_specification]
#[verifier::external_body]
pub struct ExFromHexError(hex::FromHexError);

/// `hex::encode`: lower-case hex, two digits per byte.
#[verifier::external_body]
fn hex_encode(data: &[u8]) -> (r: String)
    ensures
        r@ == hex_lower(data@),
{
    hex::encode(data)
}

/// `hex::decode`: accepts an even number of hex digits of either case.
#[verifier::external_body]
fn hex_decode(s: &str) -> (r: Result<Vec<u8>, hex::FromHexError>)
    ensures
        r is Ok <==> hex_decoding(s@) is Some,
        r matches Ok(v) ==> hex_decoding(s@) == Some(v@),
{
    hex::decode(s)
}

/// Decodes hex text; refused text gives no bytes.
pub fn hex_to_bin(s: &str) -> (r: Vec<u8>)
    ensures
        r@ == or_empty(hex_decoding(s@)),
{
    match hex_decode(s) {
        Ok(v) => v,
        Err(_) => Vec::new(),
    }
}

/// Lower-case hex text of the bytes.
pub fn bin_to_hex(data: &[u8]) -> (r: String)
    ensures
        r@ == hex_lower(data@),
{
    hex_encode(data)
}

/// Hex text read back gives the bytes that were written.
pub proof fn lemma_hex_roundtrip(data: Seq<u8>)
    ensures
        hex_decoding(hex_lower(data)) == Some(data),
{
    let h = hex_lower(data);
    assert forall|i: int| 0 <= i < h.len() implies is_hex_char(#[trigger] h[i]) by {
        let b = data[i / 2];
        assert(b / 16 < 16 && b % 16 < 16);
    }
    let d = hex_decoding(h)->0;
    assert forall|i: int| 0 <= i < data.len() implies #[trigger] d[i] == data[i] by {
        let b = data[i];
        assert(h[2 * i] == hex_digit_lower((b / 16) as nat));
        assert(h[2 * i + 1] == hex_digit_lower((b % 16) as nat));
        assert(hex_value(hex_digit_lower((b / 16) as nat)) == b / 16);
        assert(hex_value(hex_digit_lower((b % 16) as nat)) == b % 16);
    }
    assert(d =~= data);
}

// ---------------------------------------------------------------------------
// Content hash used for naming temporary directories
// ---------------------------------------------------------------------------

/// The SHA-256 digest of `data`, as the `sha2` crate computes it.
pub uninterp spec fn sha256_digest(data: Seq<u8>) -> Seq<u8>;

/// `sha2::Sha256::digest`; the digest is 32 bytes long.
#[verifier::external_body]
fn sha256(data: &[u8]) -> (r: Vec<u8>)
    ensures
        r@ == sha256_digest(data@),
        r@.len() == 32,
{
    sha2::Sha256::digest(data).to_vec()
}

/// Whether a character is a lower-case hex digit.
pub open spec fn is_lower_hex_digit(c: char) -> bool {
    ('0' <= c && c <= '9') || ('a' <= c && c <= 'f')
}

/// Lower-case hex text is made of lower-case hex digits.
pub proof fn lemma_hex_lower_digits(data: Seq<u8>)
    ensures
        forall|j: int| 0 <= j < hex_lower(data).len() ==> is_lower_hex_digit(#[trigger] hex_lower(data)[j]),
{
    assert forall|j: int| 0 <= j < hex_lower(data).len() implies is_lower_hex_digit(#[trigger] hex_lower(data)[j]) by {
        let b = data[j / 2];
        let d: nat = if j % 2 == 0 { (b / 16) as nat } else { (b % 16) as nat };
        assert(d < 16);
        assert(hex_lower(data)[j] == hex_digit_lower(d));
        let digits = seq!['0', '1', '2', '3', '4', '5', '6', '7', '8', '9', 'a', 'b', 'c', 'd', 'e', 'f'];
        assert forall|k: int| 0 <= k < 16 implies is_lower_hex_digit(#[trigger] digits[k]) by {
            assert(digits[k] == seq!['0', '1', '2', '3', '4', '5', '6', '7', '8', '9', 'a', 'b', 'c', 'd', 'e', 'f'][k]);
        }
        assert(is_lower_hex_digit(digits[d as int]));
    }
}

/// The first 40 lower-case hex digits of the SHA-256 digest of the UTF-8
/// bytes of `data`: a stable content hash for directory names.
pub fn sha1_hex(data: &str) -> (r: String)
    ensures
        r@ == hex_lower(sha256_digest(encode_utf8(data@))).subrange(0, 40),
        r@.len() == 40,
        forall|i: int| 0 <= i < r@.len() ==> is_lower_hex_digit(#[trigger] r@[i]),
{
    let digest = sha256(data.as_bytes());
    let full = bin_to_hex(digest.as_slice());
    let chars = str_chars(full.as_str());
    proof {
        lemma_hex_lower_digits(digest@);
    }
    let prefix = slice_subrange(chars.as_slice(), 0, 40);
    chars_to_string(prefix)
}

// ---------------------------------------------------------------------------
// Random identifiers
// ---------------------------------------------------------------------------

/// Whether `c` is an ASCII letter or digit.
pub open spec fn is_ascii_alnum(c: char) -> bool {
    ('A' <= c <= 'Z') || ('a' <= c <= 'z') || ('0' <= c <= '9')
}

/// `rand`'s `Alphanumeric` distribution sampled from the thread-local
/// generator: one ASCII letter or digit, chosen at random.
#[verifier::external_body]
fn random_alphanumeric() -> (r: u8)
    ensures
        is_ascii_alnum(r as char),
{
    rand::thread_rng().sample(rand::distributions::Alphanumeric)
}

/// A random identifier of `length` ASCII letters and digits.
pub fn gen_id(length: usize) -> (r: String)
    ensures
        r@.len() == length,
        forall|i: int| 0 <= i < length ==> is_ascii_alnum(#[trigger] r@[i]),
{
    let mut out: Vec<char> = Vec::new();
    let mut i: usize = 0;
    while i < length
        invariant
            i <= length,
            out@.len() == i,
            forall|k: int| 0 <= k < i ==> is_ascii_alnum(#[trigger] out@[k]),
        decreases length - i,
    {
        let b = random_alphanumeric();
        out.push(b as char);
        i = i + 1;
    }
    chars_to_string(out.as_slice())
}

// ---------------------------------------------------------------------------
// Exponential back-off
// ---------------------------------------------------------------------------

/// Base of the exponential back-off.
pub const EXP_BACKOFF_BASE: u64 = 2;
/// First back-off delay, in seconds.
pub const EXP_BACKOFF_SECS_RETRY: u64 = 1;
/// Longest back-off delay, in seconds.
pub const EXP_BACKOFF_MAX_WAIT_TIME: u64 = 8;

/// `2^n`.
pub open spec fn two_pow(n: nat) -> nat
    decreases n,
{
    if n == 0 { 1 } else { 2 * two_pow((n - 1) as nat) }
}

/// The back-off delay in seconds before retry number `retry_count`:
/// `1 * 2^retry_count`, capped at 8.
pub open spec fn spec_backoff(retry_count: nat) -> nat {
    if two_pow(retry_count) < 8 { two_pow(retry_count) } else { 8 }
}

/// Seconds to wait before retry number `retry_count` (`2^n` seconds, at most
/// 8). The power must fit in 64 bits.
pub fn wait_time_exp_backoff(retry_count: u32) -> (r: u64)
    requires
        retry_count < 64,
    ensures
        r == spec_backoff(retry_count as nat),
{
    let mut wait: u64 = EXP_BACKOFF_SECS_RETRY;
    let mut i: u32 = 0;
    while i < retry_count
        invariant
            i <= retry_count,
            wait == spec_backoff(i as nat),
        decreases retry_count - i,
    {
        if wait < EXP_BACKOFF_MAX_WAIT_TIME {
            wait = wait * EXP_BACKOFF_BASE;
        }
        i = i + 1;
        proof {
            lemma_two_pow_small((i - 1) as nat);
            assert(two_pow(i as nat) == 2 * two_pow((i - 1) as nat));
        }
    }
    wait
}

proof fn lemma_two_pow_small(n: nat)
    ensures
        n >= 3 ==> two_pow(n) >= 8,
        n == 0 ==> two_pow(n) == 1,
        n == 1 ==> two_pow(n) == 2,
        n == 2 ==> two_pow(n) == 4,
    decreases n,
{
    if n > 0 {
        lemma_two_pow_small((n - 1) as nat);
    }
    if n == 2 {
        assert(two_pow(1) == 2 * two_pow(0));
    }
}

/// Back-off delays never shrink as retries accumulate, and never exceed 8 seconds.
pub proof fn lemma_backoff_monotone_bounded(a: nat, b: nat)
    requires
        a <= b,
    ensures
        spec_backoff(a) <= spec_backoff(b),
        spec_backoff(b) <= EXP_BACKOFF_MAX_WAIT_TIME,
        spec_backoff(a) >= 1,
    decreases b,
{
    if b > a {
        lemma_backoff_monotone_bounded(a, (b - 1) as nat);
        assert(two_pow(b) == 2 * two_pow((b - 1) as nat));
    } else {
        lemma_two_pow_positive(b);
    }
}

proof fn lemma_two_pow_positive(n: nat)
    ensures
        two_pow(n) >= 1,
    decreases n,
{
    if n > 0 {
        lemma_two_pow_positive((n - 1) as nat);
    }
}


// ---------------------------------------------------------------------------
// Regular expressions on caller-supplied patterns
// ---------------------------------------------------------------------------

/// The text of capture group `group` in the first match of `pattern` in
/// `text`, as the `regex` crate finds it; `None` where the pattern does not
/// compile, nothing matches, or the group took no part in the match.
pub uninterp spec fn regex_first_capture(pattern: Seq<char>, text: Seq<char>, group: nat) -> Option<Seq<char>>;

/// The texts of capture group `group` in the successive non-overlapping
/// matches of `pattern` in `text` where the group took part, as the `regex`
/// crate finds them; empty where the pattern does not compile.
pub uninterp spec fn regex_all_captures(pattern: Seq<char>, text: Seq<char>, group: nat) -> Seq<Seq<char>>;

/// `regex::Regex::new(pattern)` followed by `captures(data)` and `get(group)`.
#[verifier::external_body]
fn regex_capture_first(pattern: &str, data: &str, group: usize) -> (r: Option<String>)
    ensures
        r is Some <==> regex_first_capture(pattern@, data@, group as nat) is Some,
        r matches Some(v) ==> regex_first_capture(pattern@, data@, group as nat) == Some(v@),
{
    let re = regex::Regex::new(pattern).ok()?;
    let caps = re.captures(data)?;
    caps.get(group).map(|m| m.as_str().to_string())
}

/// `regex::Regex::new(pattern)` followed by `captures_iter(data)` and `get(group)`.
#[verifier::external_body]
fn regex_capture_all(pattern: &str, data: &str, group: usize) -> (r: Vec<String>)
    ensures
        r@.len() == regex_all_captures(pattern@, data@, group as nat).len(),
        forall|i: int| 0 <= i < r@.len() ==> #[trigger] r@[i]@ == regex_all_captures(pattern@, data@, group as nat)[i],
{
    match regex::Regex::new(pattern) {
        Ok(re) => re.captures_iter(data).filter_map(|c| c.get(group).map(|m| m.as_str().to_string())).collect(),
        Err(_) => Vec::new(),
    }
}

/// The text of capture group `group` of the first match of `pattern` in `data`.
pub fn find_first_regex(pattern: &str, data: &str, group: usize) -> (r: Option<String>)
    ensures
        r is Some <==> regex_first_capture(pattern@, data@, group as nat) is Some,
        r matches Some(v) ==> regex_first_capture(pattern@, data@, group as nat) == Some(v@),
{
    regex_capture_first(pattern, data, group)
}

/// The texts of capture group `group` of every match of `pattern` in `data`.
pub fn find_all_regex(pattern: &str, data: &str, group: usize) -> (r: Vec<String>)
    ensures
        r@.len() == regex_all_captures(pattern@, data@, group as nat).len(),
        forall|i: int| 0 <= i < r@.len() ==> #[trigger] r@[i]@ == regex_all_captures(pattern@, data@, group as nat)[i],
{
    regex_capture_all(pattern, data, group)
}

// ---------------------------------------------------------------------------
// Display helpers
// ---------------------------------------------------------------------------

/// A duration written as `Ns`, `Nm Ns` under an hour, or `Nh Nm`.
pub open spec fn spec_format_duration(secs: nat) -> Seq<char> {
    if secs < 60 {
        decimal(secs) + seq!['s']
    } else if secs < 3600 {
        decimal(secs / 60) + seq!['m', ' '] + decimal(secs % 60) + seq!['s']
    } else {
        decimal(secs / 3600) + seq!['h', ' '] + decimal((secs % 3600) / 60) + seq!['m']
    }
}

/// Formats a duration in seconds for display.
pub fn format_duration(secs: u64) -> (r: String)
    ensures
        r@ == spec_format_duration(secs as nat),
{
    let mut out: Vec<char> = Vec::new();
    if secs < 60 {
        push_decimal(&mut out, secs);
        out.push('s');
    } else if secs < 3600 {
        push_decimal(&mut out, secs / 60);
        out.push('m');
        out.push(' ');
        push_decimal(&mut out, secs % 60);
        out.push('s');
    } else {
        push_decimal(&mut out, secs / 3600);
        out.push('h');
        out.push(' ');
        push_decimal(&mut out, (secs % 3600) / 60);
        out.push('m');
    }
    assert(out@ =~= spec_format_duration(secs as nat));
    chars_to_string(out.as_slice())
}

/// How many bits `b` must lose on the right to fit in the 53-bit
/// significand of an `f64`.
pub open spec fn float_shift(b: nat) -> nat
    decreases b,
{
    if b < 0x20_0000_0000_0000 {
        0
    } else {
        1 + float_shift(b / 2)
    }
}

/// `n / d` rounded to the nearest integer, a tie going to the even one.
pub open spec fn div_round_even(n: nat, d: nat) -> nat {
    let q = n / d;
    let r = n % d;
    if 2 * r > d || (2 * r == d && q % 2 == 1) {
        q + 1
    } else {
        q
    }
}

/// The value of `b as f64`: `b` rounded to 53 significant bits, a tie going
/// to the even significand.
pub open spec fn f64_value(b: nat) -> nat {
    let p = vstd::arithmetic::power2::pow2(float_shift(b));
    div_round_even(b, p) * p
}

/// `1024` to the power `k`.
pub open spec fn kib_power(k: nat) -> nat
    decreases k,
{
    if k == 0 {
        1
    } else {
        1024 * kib_power((k - 1) as nat)
    }
}

/// The largest unit, at most the fourth, that a value reaches.
pub open spec fn byte_unit_index(v: nat) -> nat {
    if v < kib_power(1) {
        0
    } else if v < kib_power(2) {
        1
    } else if v < kib_power(3) {
        2
    } else if v < kib_power(4) {
        3
    } else {
        4
    }
}

/// The name of a unit of bytes.
pub open spec fn byte_unit(k: nat) -> Seq<char> {
    if k == 0 {
        seq!['B']
    } else if k == 1 {
        seq!['K', 'B']
    } else if k == 2 {
        seq!['M', 'B']
    } else if k == 3 {
        seq!['G', 'B']
    } else {
        seq!['T', 'B']
    }
}

/// A number of hundredths written with two decimals.
pub open spec fn hundredths_text(n: nat) -> Seq<char> {
    decimal(n / 100) + seq!['.', digit_char((n % 100) / 10), digit_char(n % 10)]
}

/// A byte count for display: below 1 KB the count itself and `B`; above,
/// the count as an `f64` in the largest unit up to TB that it reaches,
/// rounded to two decimals.
pub open spec fn spec_format_bytes(b: nat) -> Seq<char> {
    if b < 1024 {
        decimal(b) + seq![' ', 'B']
    } else {
        let v = f64_value(b);
        let k = byte_unit_index(v);
        hundredths_text(div_round_even(v * 100, kib_power(k))) + seq![' '] + byte_unit(k)
    }
}

proof fn lemma_kib_powers()
    ensures
        kib_power(1) == 1024,
        kib_power(2) == 1048576,
        kib_power(3) == 1073741824,
        kib_power(4) == 1099511627776,
{
    reveal_with_fuel(kib_power, 5);
}

/// `b as f64`, as an integer.
fn f64_of_u64(b: u64) -> (r: u128)
    ensures
        r == f64_value(b as nat),
        r <= 0x2_0000_0000_0000_0000,
        b >= 1024 ==> r >= 1024,
{
    let mut q: u128 = b as u128;
    let mut p: u128 = 1;
    let ghost mut s: nat = 0;
    proof {
        vstd::arithmetic::power2::lemma2_to64();
    }
    while q >= 0x20_0000_0000_0000
        invariant
            p > 0,
            q == (b as nat) / (p as nat),
            p == vstd::arithmetic::power2::pow2(s),
            float_shift(b as nat) == s + float_shift(q as nat),
            p <= 4096,
            p == 1 || b >= 0x20_0000_0000_0000,
        decreases q,
    {
        proof {
            vstd::arithmetic::div_mod::lemma_fundamental_div_mod(b as int, p as int);
            assert(p * q <= b) by (nonlinear_arith)
                requires
                    b == p * q + (b as int) % (p as int),
                    (b as int) % (p as int) >= 0;
            assert(p * 2 <= 4096) by (nonlinear_arith)
                requires
                    p * q <= b,
                    q >= 0x20_0000_0000_0000,
                    b < 0x1_0000_0000_0000_0000,
                    p > 0;
            assert(b >= 0x20_0000_0000_0000) by (nonlinear_arith)
                requires
                    p * q <= b,
                    q >= 0x20_0000_0000_0000,
                    p > 0;
            vstd::arithmetic::div_mod::lemma_div_denominator(b as int, p as int, 2);
            vstd::arithmetic::power2::lemma_pow2_unfold(s + 1);
        }
        q = q / 2;
        p = p * 2;
        proof {
            s = s + 1;
        }
    }
    let ghost pp = p as nat;
    let rem: u128 = (b as u128) % p;
    let round_up = 2 * rem > p || (2 * rem == p && q % 2 == 1);
    assert(q * p <= (q + 1) * p <= 0x2_0000_0000_0000_0000) by (nonlinear_arith)
        requires
            q < 0x20_0000_0000_0000,
            p <= 4096;
    let r: u128 = if round_up { (q + 1) * p } else { q * p };
    proof {
        assert((b as nat) % pp == rem);
        assert(div_round_even(b as nat, pp) == if round_up { (q + 1) as nat } else { q as nat });
        assert(f64_value(b as nat) == r);
        assert(r >= q * p);
        if b >= 1024 {
            vstd::arithmetic::div_mod::lemma_fundamental_div_mod(b as int, p as int);
            assert(r >= 1024) by (nonlinear_arith)
                requires
                    r >= q * p,
                    b == p * q + (b as int) % (p as int),
                    (b as int) % (p as int) < p,
                    b >= 1024,
                    p <= 4096,
                    p > 0,
                    b >= 0x20_0000_0000_0000 || p == 1;
        }
    }
    r
}

/// The unit a value of at least 1 KB is shown in, and that unit's size.
fn unit_for(v: u128) -> (res: (u64, u128))
    requires
        1024 <= v,
    ensures
        1 <= res.0 <= 4,
        res.0 as nat == byte_unit_index(v as nat),
        res.1 == kib_power(res.0 as nat),
        1024 <= res.1 <= 1099511627776,
{
    proof {
        lemma_kib_powers();
    }
    let mut k: u64 = 1;
    let mut d: u128 = 1024;
    while k < 4 && v >= d * 1024
        invariant
            1 <= k <= 4,
            d == kib_power(k as nat),
            v >= d,
            kib_power(1) == 1024,
            kib_power(2) == 1048576,
            kib_power(3) == 1073741824,
            kib_power(4) == 1099511627776,
        decreases 4 - k,
    {
        d = d * 1024;
        k = k + 1;
    }
    (k, d)
}

/// `v / d` in hundredths, rounded to the nearest, a tie going to the even one.
fn hundredths(v: u128, d: u128) -> (n: u128)
    requires
        v <= 0x2_0000_0000_0000_0000,
        1024 <= d <= 1099511627776,
    ensures
        n == div_round_even(v as nat * 100, d as nat),
        n <= 100 * 0x80_0000_0000_0000 + 1,
{
    let scaled: u128 = v * 100;
    let q: u128 = scaled / d;
    let rem: u128 = scaled % d;
    assert(q <= 100 * 0x80_0000_0000_0000) by (nonlinear_arith)
        requires
            q == scaled / d,
            scaled <= 100 * 0x2_0000_0000_0000_0000,
            d >= 1024;
    if 2 * rem > d || (2 * rem == d && q % 2 == 1) { q + 1 } else { q }
}

/// Appends a number of hundredths written with two decimals.
fn push_hundredths(out: &mut Vec<char>, n: u128)
    requires
        n <= 100 * 0x80_0000_0000_0000 + 1,
    ensures
        final(out)@ == old(out)@ + hundredths_text(n as nat),
{
    let whole: u64 = (n / 100) as u64;
    let frac: u128 = n % 100;
    push_decimal(out, whole);
    out.push('.');
    let tens = digit_to_char((frac / 10) as u64);
    let ones = digit_to_char((frac % 10) as u64);
    out.push(tens);
    out.push(ones);
    assert(out@ =~= old(out)@ + hundredths_text(n as nat));
}

/// Formats a byte count for display: `512 B`, `1.00 KB`, `1.50 MB`, up to TB.
pub fn format_bytes(bytes: u64) -> (r: String)
    ensures
        r@ == spec_format_bytes(bytes as nat),
{
    let mut out: Vec<char> = Vec::new();
    if bytes < 1024 {
        push_decimal(&mut out, bytes);
        out.push(' ');
        out.push('B');
        assert(out@ =~= spec_format_bytes(bytes as nat));
        return chars_to_string(out.as_slice());
    }
    let v = f64_of_u64(bytes);
    let (k, d) = unit_for(v);
    let n = hundredths(v, d);
    push_hundredths(&mut out, n);
    let ghost text = out@;
    out.push(' ');
    if k == 1 {
        out.push('K');
    } else if k == 2 {
        out.push('M');
    } else if k == 3 {
        out.push('G');
    } else {
        out.push('T');
    }
    out.push('B');
    assert(out@ =~= text + seq![' '] + byte_unit(k as nat));
    assert(out@ =~= spec_format_bytes(bytes as nat));
    chars_to_string(out.as_slice())
}

/// Back-off delays start at one second and double with each retry until
/// they reach eight seconds, where they stay.
pub proof fn lemma_backoff_doubles(n: nat)
    ensures
        spec_backoff(0) == 1,
        spec_backoff(n + 1) == (if 2 * spec_backoff(n) < 8 { 2 * spec_backoff(n) } else { 8 }),
{
    assert(two_pow(n + 1) == 2 * two_pow(n));
    if two_pow(n) >= 8 {
        assert(two_pow(n + 1) >= 8);
    }
}

/// Whether `c` may not appear in a file name on common file systems.
pub open spec fn is_unsafe_filename_char(c: char) -> bool {
    c == '/' || c == '\\' || c == ':' || c == '*' || c == '?' || c == '"' || c == '<' || c == '>' || c == '|'
}

/// `c`, or `_` in place of a character that file names may not hold.
pub open spec fn clean_char(c: char) -> char {
    if is_unsafe_filename_char(c) { '_' } else { c }
}

/// A file name with every character cleaned.
pub open spec fn cleaned_name(name: Seq<char>) -> Seq<char> {
    name.map_values(|c: char| clean_char(c))
}

/// Cleaning a file name keeps its length and every character but
/// `/ \ : * ? " < > |`, each of which becomes `_`; so no such character
/// is left.
pub proof fn lemma_clean_filename(name: Seq<char>)
    ensures
        cleaned_name(name).len() == name.len(),
        forall|i: int| 0 <= i < name.len() ==> {
            let c = name[i];
            let d = #[trigger] cleaned_name(name)[i];
            &&& d != '/' && d != '\\' && d != ':' && d != '*' && d != '?' && d != '"' && d != '<' && d != '>' && d != '|'
            &&& (c == '/' || c == '\\' || c == ':' || c == '*' || c == '?' || c == '"' || c == '<' || c == '>' || c == '|') ==> d == '_'
            &&& !(c == '/' || c == '\\' || c == ':' || c == '*' || c == '?' || c == '"' || c == '<' || c == '>' || c == '|') ==> d == c
        },
{
}

/// Replaces each character that file names may not hold with `_`.
pub fn clean_filename(filename: &str) -> (r: String)
    ensures
        r@ == filename@.map_values(|c: char| clean_char(c)),
        r@ == cleaned_name(filename@),
{
    proof {
        lemma_clean_filename(filename@);
    }
    let chars = str_chars(filename);
    let mut out: Vec<char> = Vec::with_capacity(chars.len());
    let mut i: usize = 0;
    while i < chars.len()
        invariant
            chars@ == filename@,
            i <= chars@.len(),
            out@ =~= chars@.subrange(0, i as int).map_values(|c: char| clean_char(c)),
        decreases chars@.len() - i,
    {
        let c = chars[i];
        let d = if c == '/' || c == '\\' || c == ':' || c == '*' || c == '?' || c == '"' || c == '<'
            || c == '>' || c == '|' {
            '_'
        } else {
            c
        };
        out.push(d);
        i = i + 1;
    }
    assert(chars@.subrange(0, i as int) =~= chars@);
    chars_to_string(out.as_slice())
}

/// `arr` with the elements at positions `start..=end` in reverse order.
pub open spec fn reversed_range(arr: Seq<u8>, start: int, end: int) -> Seq<u8> {
    Seq::new(arr.len(), |i: int| if start <= i <= end { arr[start + end - i] } else { arr[i] })
}

/// Reverses `arr[start..=end]` in place, swapping from the outside in.
pub fn rec_reverse_array(arr: &mut [u8], start: usize, end: usize)
    requires
        start < end ==> end < old(arr)@.len(),
    ensures
        final(arr)@ == reversed_range(old(arr)@, start as int, end as int),
    decreases end - start,
{
    if start < end {
        let a = arr[start];
        let b = arr[end];
        arr[start] = b;
        arr[end] = a;
        if start + 1 < end {
            rec_reverse_array(arr, start + 1, end - 1);
        }
        assert(arr@ =~= reversed_range(old(arr)@, start as int, end as int));
    } else {
        assert(arr@ =~= reversed_range(old(arr)@, start as int, end as int));
    }
}

// ---------------------------------------------------------------------------
// Multi-precision integers, held as big-endian bytes
// ---------------------------------------------------------------------------

/// The value of big-endian bytes.
pub open spec fn be_nat(s: Seq<u8>) -> nat
    decreases s.len(),
{
    if s.len() == 0 { 0 } else { be_nat(s.drop_last()) * 256 + s.last() as nat }
}

/// The shortest big-endian form of a number: no leading zero byte, and `[0]` for zero.
pub open spec fn is_minimal_be(s: Seq<u8>) -> bool {
    s.len() >= 1 && (s.len() == 1 || s[0] != 0)
}

/// The bytes of an MPI value: a 2-byte big-endian bit length, then the value
/// in `(bits + 7) / 8` bytes, cut short where the input ends. Inputs shorter
/// than two bytes hold zero.
pub open spec fn spec_mpi_value_bytes(s: Seq<u8>) -> Seq<u8> {
    if s.len() < 2 {
        Seq::empty()
    } else {
        let byte_len = ((s[0] as nat * 256 + s[1] as nat) + 7) / 8;
        let end: int = if 2 + byte_len < s.len() { (2 + byte_len) as int } else { s.len() as int };
        s.subrange(2, end)
    }
}

/// The big-endian value bytes of an MPI-encoded number (its value is
/// `be_nat` of the result).
pub fn mpi_to_big(s: &[u8]) -> (r: Vec<u8>)
    ensures
        r@ == spec_mpi_value_bytes(s@),
{
    if s.len() < 2 {
        return Vec::new();
    }
    let bits = be_read_u16(s);
    let byte_len = (bits as usize + 7) / 8;
    let start: usize = 2;
    let end = if start + byte_len < s.len() { start + byte_len } else { s.len() };
    vstd::slice::slice_to_vec(slice_subrange(s, start, end))
}

/// `num_bigint::BigUint` multiplication of two big-endian numbers; the
/// product comes back in its shortest big-endian form.
#[verifier::external_body]
pub(crate) fn big_mul(a: &[u8], b: &[u8]) -> (r: Vec<u8>)
    ensures
        be_nat(r@) == be_nat(a@) * be_nat(b@),
        is_minimal_be(r@),
{
    let x = num_bigint::BigUint::from_bytes_be(a);
    let y = num_bigint::BigUint::from_bytes_be(b);
    (&x * &y).to_bytes_be()
}

/// `num_bigint::BigUint::modpow` on big-endian numbers: `base^exp mod modulus`
/// in its shortest big-endian form. The modulus may not be zero.
#[verifier::external_body]
pub(crate) fn big_modpow(base: &[u8], exp: &[u8], modulus: &[u8]) -> (r: Vec<u8>)
    requires
        be_nat(modulus@) > 0,
    ensures
        be_nat(r@) == pow(be_nat(base@) as int, be_nat(exp@)) % (be_nat(modulus@) as int),
        is_minimal_be(r@),
{
    let b = num_bigint::BigUint::from_bytes_be(base);
    let e = num_bigint::BigUint::from_bytes_be(exp);
    let m = num_bigint::BigUint::from_bytes_be(modulus);
    b.modpow(&e, &m).to_bytes_be()
}

} // verus!
