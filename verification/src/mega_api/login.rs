//! Login key derivation: the e-mail as the API knows it, and the password
//! key and user hash of legacy (version 1) and PBKDF2 (version 2) accounts.

use vstd::prelude::*;
use vstd::utf8::encode_utf8;
use crate::crypto::{
    mega_prepare_master_key, mega_user_hash, pbkdf2_hmac_sha512,
    pbkdf2_hmac_sha512_output, spec_prepare_master_key, spec_user_hash,
};
use crate::text::{chars_to_string, first_piece, first_piece_chars, str_chars, to_lowercase, unicode_lowercase};
use crate::util::{
    bin_to_i32a, bytes_to_i32s, or_empty, url_base64_decode, url_base64_encode, url_safe_no_pad_decoding,
    url_safe_no_pad_encoding,
};


verus! {

/// Rounds of PBKDF2 for version 2 accounts.
pub const PBKDF2_ITERATIONS: u32 = 100_000;
/// Bits of PBKDF2 output for version 2 accounts.
pub const PBKDF2_OUTPUT_BIT_LENGTH: u32 = 256;

/// The e-mail as the API knows it: what precedes the first `#`, lower-cased.
pub open spec fn spec_clean_email(email: Seq<char>) -> Seq<char> {
    unicode_lowercase(first_piece(email, '#'))
}

/// The e-mail as the API knows it.
pub fn clean_email(email: &str) -> (r: String)
    ensures
        r@ == spec_clean_email(email@),
{
    let chars = str_chars(email);
    let first = first_piece_chars(chars.as_slice(), '#');
    let s = chars_to_string(first.as_slice());
    to_lowercase(s.as_str())
}

/// The account version an answer gives: its number cut to 32 bits, 1 where it has none.
pub fn account_version(v: Option<i64>) -> (r: i32)
    ensures
        r == (match v {
            Some(x) => x as i32,
            None => 1i32,
        }),
{
    match v {
        Some(x) => x as i32,
        None => 1,
    }
}

/// `b` followed by zeros up to a multiple of four bytes.
pub open spec fn zero_padded_words(b: Seq<u8>) -> Seq<u8> {
    b + Seq::new(((4 - b.len() % 4) % 4) as nat, |i: int| 0u8)
}

/// A password packed into big-endian integers, four bytes of its UTF-8
/// form each, the last group zero-filled.
pub open spec fn password_words(password: Seq<char>) -> Seq<i32> {
    bytes_to_i32s(zero_padded_words(encode_utf8(password)))
}

/// Packs a password into big-endian integers.
pub fn pack_password(password: &str) -> (r: Vec<i32>)
    requires
        encode_utf8(password@).len() + 4 <= usize::MAX,
    ensures
        r@ == password_words(password@),
        r@.len() * 4 <= encode_utf8(password@).len() + 4,
{
    let bytes = password.as_bytes();
    let mut padded: Vec<u8> = Vec::new();
    let mut i: usize = 0;
    while i < bytes.len()
        invariant
            i <= bytes@.len(),
            bytes@ == encode_utf8(password@),
            padded@ == bytes@.subrange(0, i as int),
        decreases bytes@.len() - i,
    {
        padded.push(bytes[i]);
        i = i + 1;
        assert(padded@ =~= bytes@.subrange(0, i as int));
    }
    assert(bytes@.subrange(0, i as int) =~= bytes@);
    let ghost n = bytes@.len();
    let ghost pad = ((4 - n % 4) % 4) as nat;
    while padded.len() % 4 != 0
        invariant
            bytes@ == encode_utf8(password@),
            n == bytes@.len(),
            n + 4 <= usize::MAX,
            pad == ((4 - n % 4) % 4) as nat,
            n <= padded@.len() <= n + pad,
            padded@ == bytes@ + Seq::new((padded@.len() - n) as nat, |k: int| 0u8),
        decreases n + pad - padded@.len(),
    {
        padded.push(0u8);
        assert(padded@ =~= bytes@ + Seq::new((padded@.len() - n) as nat, |k: int| 0u8));
    }
    assert(padded@.len() == n + pad);
    assert(padded@ =~= zero_padded_words(bytes@));
    bin_to_i32a(padded.as_slice())
}

/// The password key and user hash of a legacy (version 1) account: the key
/// from the packed password, the hash from the e-mail's UTF-8 bytes.
pub open spec fn spec_keys_v1(password: Seq<char>, email: Seq<char>) -> (Seq<i32>, Seq<char>) {
    let key = spec_prepare_master_key(password_words(password));
    let hash = match spec_user_hash(encode_utf8(email), key) {
        Ok(h) => h,
        Err(_) => Seq::empty(),
    };
    (key, hash)
}

/// Derives the password key and user hash of a legacy account.
pub fn login_keys_v1(password: &str, email: &str) -> (r: (Vec<i32>, String))
    requires
        encode_utf8(password@).len() + 4 <= usize::MAX,
    ensures
        (r.0@, r.1@) == spec_keys_v1(password@, email@),
        spec_user_hash(encode_utf8(email@), r.0@) == Ok::<Seq<char>, crate::crypto::CryptoError>(r.1@),
{
    let words = pack_password(password);
    let key = match mega_prepare_master_key(words.as_slice()) {
        Ok(k) => k,
        Err(_) => Vec::new(),
    };
    let hash = match mega_user_hash(email.as_bytes(), key.as_slice()) {
        Ok(h) => h,
        Err(_) => String::new(),
    };
    (key, hash)
}

/// The salt text of an account (empty where it has none).
pub open spec fn salt_text(salt: Option<Seq<char>>) -> Seq<char> {
    match salt {
        Some(s) => s,
        None => Seq::empty(),
    }
}

/// The 32 bytes that PBKDF2-HMAC-SHA512 derives from a version 2 account's
/// password and salt.
pub open spec fn spec_v2_derived(password: Seq<char>, salt: Option<Seq<char>>) -> Seq<u8> {
    pbkdf2_hmac_sha512_output(
        encode_utf8(password),
        or_empty(url_safe_no_pad_decoding(salt_text(salt))),
        PBKDF2_ITERATIONS,
        32,
    )
}

/// The password key and user hash of a version 2 account: the first 16
/// derived bytes as integers, the next 16 in URL-safe base64.
pub open spec fn spec_keys_v2(password: Seq<char>, salt: Option<Seq<char>>) -> (Seq<i32>, Seq<char>) {
    let d = spec_v2_derived(password, salt);
    (bytes_to_i32s(d.subrange(0, 16)), url_safe_no_pad_encoding(d.subrange(16, 32)))
}

/// The text of an optional string slice.
pub open spec fn opt_str_text(s: Option<&str>) -> Option<Seq<char>> {
    match s {
        Some(t) => Some(t@),
        None => None,
    }
}

/// Derives the password key and user hash of a version 2 account.
pub fn login_keys_v2(password: &str, salt: Option<&str>) -> (r: (Vec<i32>, String))
    ensures
        (r.0@, r.1@) == spec_keys_v2(password@, opt_str_text(salt)),
{
    let salt_str: &str = match salt {
        Some(s) => s,
        None => "",
    };
    proof {
        reveal_strlit("");
    }
    assert(salt_str@ == salt_text(opt_str_text(salt)));
    let salt_bytes = url_base64_decode(salt_str);
    let derived = match pbkdf2_hmac_sha512(password, salt_bytes.as_slice(), PBKDF2_ITERATIONS, PBKDF2_OUTPUT_BIT_LENGTH) {
        Ok(d) => d,
        Err(_) => Vec::new(),
    };
    let key = bin_to_i32a(vstd::slice::slice_subrange(derived.as_slice(), 0, 16));
    let hash = url_base64_encode(vstd::slice::slice_subrange(derived.as_slice(), 16, 32));
    (key, hash)
}

/// The password key and user hash for an account of the given version:
/// version 1 uses the legacy derivation, any other PBKDF2.
pub open spec fn spec_login_keys(version: i32, password: Seq<char>, email: Seq<char>, salt: Option<Seq<char>>) -> (Seq<i32>, Seq<char>) {
    if version == 1 {
        spec_keys_v1(password, email)
    } else {
        spec_keys_v2(password, salt)
    }
}

/// Derives the password key and user hash for an account of the given version.
pub fn login_keys(version: i32, password: &str, email: &str, salt: Option<&str>) -> (r: (Vec<i32>, String))
    requires
        encode_utf8(password@).len() + 4 <= usize::MAX,
    ensures
        (r.0@, r.1@) == spec_login_keys(version, password@, email@, opt_str_text(salt)),
{
    if version == 1 {
        login_keys_v1(password, email)
    } else {
        login_keys_v2(password, salt)
    }
}

} // verus!
