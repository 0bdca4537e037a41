//! MegaCrypter links: the API address of a link's host, the key derivation
//! of password-protected links, and the decisions on the service's answers.

use vstd::prelude::*;
use vstd::string::StringExecFns;
use vstd::utf8::{decode_utf8, encode_utf8, valid_utf8};
use crate::crypto::{
    aes_cbc_decrypt_nopadding, aes_cbc_decrypt_pkcs7, aes128_cbc_decrypt_pkcs7, pbkdf2_hmac_sha256,
    pbkdf2_hmac_sha256_output, spec_cbc_decrypt_nopadding, key_length_error, zero_block, CryptoError, AES_ZERO_IV,
};
use crate::text::{
    chars_to_string, opt_text, parse_u32, spec_parse_unsigned, split_chars, split_pieces, str_chars, utf8_string,
};
use crate::util::{
    base64_decode, or_empty, standard_decoding, two_pow, url_base64_decode, url_base64_encode,
    url_safe_no_pad_decoding, url_safe_no_pad_encoding,
};

verus! {

/// Why a MegaCrypter request failed.
#[derive(Debug)]
pub enum McError {
    /// The service answered with an error; the text is the answer's error value.
    Api(String),
    /// The link is protected and no password was given.
    PasswordRequired,
    /// The link's password field does not have its four parts.
    InvalidPassField,
    /// The password field's iteration exponent is not a number.
    InvalidIterations,
    /// A key or a text could not be decrypted.
    Crypto(CryptoError),
    /// The answer lacks the encrypted name.
    MissingName,
    /// The answer lacks the encrypted key.
    MissingKey,
    /// A decrypted text is not UTF-8.
    InvalidUtf8,
    /// The answer lacks the download URL.
    MissingUrl,
    /// The link is not a URL.
    InvalidUrl(String),
}

/// A MegaCrypter error, its texts taken by value.
pub enum McErrorView {
    Api(Seq<char>),
    PasswordRequired,
    InvalidPassField,
    InvalidIterations,
    Crypto(CryptoError),
    MissingName,
    MissingKey,
    InvalidUtf8,
    MissingUrl,
    InvalidUrl(Seq<char>),
}

impl View for McError {
    type V = McErrorView;

    open spec fn view(&self) -> McErrorView {
        match self {
            McError::Api(m) => McErrorView::Api(m@),
            McError::PasswordRequired => McErrorView::PasswordRequired,
            McError::InvalidPassField => McErrorView::InvalidPassField,
            McError::InvalidIterations => McErrorView::InvalidIterations,
            McError::Crypto(e) => McErrorView::Crypto(*e),
            McError::MissingName => McErrorView::MissingName,
            McError::MissingKey => McErrorView::MissingKey,
            McError::InvalidUtf8 => McErrorView::InvalidUtf8,
            McError::MissingUrl => McErrorView::MissingUrl,
            McError::InvalidUrl(m) => McErrorView::InvalidUrl(m@),
        }
    }
}

// ---------------------------------------------------------------------------
// The service's address
// ---------------------------------------------------------------------------

/// The scheme and host of a URL as the `url` crate parses it; `None` where
/// the text is not a URL.
pub uninterp spec fn url_scheme_host(text: Seq<char>) -> Option<(Seq<char>, Option<Seq<char>>)>;

/// `url::Url::parse`, then the scheme and the host.
#[verifier::external_body]
fn parse_url_scheme_host(text: &str) -> (r: Option<(String, Option<String>)>)
    ensures
        match r {
            Some((s, h)) => url_scheme_host(text@) == Some((s@, opt_text(h))),
            None => url_scheme_host(text@) is None,
        },
{
    match url::Url::parse(text) {
        Ok(u) => Some((u.scheme().to_string(), u.host_str().map(String::from))),
        Err(_) => None,
    }
}

/// The API address of a link: its scheme, `://`, its host (empty where it
/// has none), and `/api`.
pub open spec fn spec_api_url(link: Seq<char>) -> Option<Seq<char>> {
    match url_scheme_host(link) {
        Some((scheme, host)) => Some(scheme + "://"@ + (match host {
            Some(h) => h,
            None => Seq::empty(),
        }) + "/api"@),
        None => None,
    }
}

/// The API address of a link's service.
pub fn api_url(link: &str) -> (r: Result<String, McError>)
    ensures
        match spec_api_url(link@) {
            Some(u) => r matches Ok(s) && s@ == u,
            None => r matches Err(e) && e@ == McErrorView::InvalidUrl(link@),
        },
{
    match parse_url_scheme_host(link) {
        Some((scheme, host)) => {
            let mut s = scheme;
            s.append("://");
            let ghost mid = s@;
            match host {
                Some(h) => {
                    s.append(h.as_str());
                },
                None => {
                    assert(s@ =~= mid + Seq::<char>::empty());
                },
            }
            s.append("/api");
            Ok(s)
        },
        None => Err(McError::InvalidUrl(String::from_str(link))),
    }
}

// ---------------------------------------------------------------------------
// Password-protected links
// ---------------------------------------------------------------------------

proof fn lemma_two_pow_is_pow2(n: nat)
    ensures
        two_pow(n) == vstd::arithmetic::power2::pow2(n),
    decreases n,
{
    if n > 0 {
        lemma_two_pow_is_pow2((n - 1) as nat);
        vstd::arithmetic::power2::lemma_pow2_unfold(n);
    } else {
        vstd::arithmetic::power2::lemma2_to64();
    }
}

proof fn lemma_two_pow_bound(n: nat)
    requires
        n < 32,
    ensures
        1 <= two_pow(n) <= 0x8000_0000,
{
    lemma_two_pow_is_pow2(n);
    vstd::arithmetic::power2::lemma2_to64();
    vstd::arithmetic::power2::lemma_pow2_pos(n);
    if n < 31 {
        vstd::arithmetic::power2::lemma_pow2_strictly_increases(n, 31);
    }
}

/// `2^e`, for `e` below 32.
fn two_to_the(e: u32) -> (r: u32)
    requires
        e < 32,
    ensures
        r == two_pow(e as nat),
{
    let mut r: u32 = 1;
    let mut i: u32 = 0;
    while i < e
        invariant
            i <= e < 32,
            r == two_pow(i as nat),
        decreases e - i,
    {
        proof {
            lemma_two_pow_bound(i as nat);
            lemma_two_pow_bound((i + 1) as nat);
        }
        r = r * 2;
        i = i + 1;
    }
    r
}

/// Whether a password field's iteration exponent, where it has one, is
/// small enough for `2^e` to fit in 32 bits.
pub open spec fn pass_field_in_range(pass_field: Seq<char>) -> bool {
    let parts = split_pieces(pass_field, '#');
    parts.len() >= 4 ==> (match spec_parse_unsigned(parts[0], u32::MAX as nat) {
        Some(e) => e < 32,
        None => true,
    })
}

/// The key a password-protected link's password gives, and the IV of its
/// field. The field is `exponent#check#salt#iv`, the last three in standard
/// base64; the key is 32 bytes of PBKDF2-HMAC-SHA256 with `2^exponent`
/// rounds, checked by decrypting the check block with it under AES-128-CBC
/// (which refuses a key of that length).
pub open spec fn spec_mc_password_key(pass_field: Seq<char>, password: Seq<char>) -> Result<(Seq<u8>, Seq<u8>), McErrorView> {
    let parts = split_pieces(pass_field, '#');
    if parts.len() < 4 {
        Err(McErrorView::InvalidPassField)
    } else {
        match spec_parse_unsigned(parts[0], u32::MAX as nat) {
            None => Err(McErrorView::InvalidIterations),
            Some(e) => {
                let key_check = or_empty(standard_decoding(parts[1]));
                let salt = or_empty(standard_decoding(parts[2]));
                let iv = or_empty(standard_decoding(parts[3]));
                let derived = pbkdf2_hmac_sha256_output(encode_utf8(password), salt, two_pow(e) as u32, 32);
                match spec_cbc_decrypt_nopadding(key_check, derived, iv) {
                    Err(err) => Err(McErrorView::Crypto(err)),
                    Ok(_) => Ok((derived, iv)),
                }
            },
        }
    }
}

/// Derives the key of a password-protected link from its password field
/// and the password.
pub fn derive_mc_password_key(pass_field: &str, password: &str) -> (r: Result<(Vec<u8>, Vec<u8>), McError>)
    requires
        pass_field_in_range(pass_field@),
    ensures
        match r {
            Ok((k, iv)) => spec_mc_password_key(pass_field@, password@) == Ok::<(Seq<u8>, Seq<u8>), McErrorView>((k@, iv@)),
            Err(e) => spec_mc_password_key(pass_field@, password@) == Err::<(Seq<u8>, Seq<u8>), McErrorView>(e@),
        },
{
    let chars = str_chars(pass_field);
    let parts = split_chars(chars.as_slice(), '#');
    let ghost pv = parts@.map_values(|v: Vec<char>| v@);
    if parts.len() < 4 {
        return Err(McError::InvalidPassField);
    }
    assert(pv[0] == parts@[0]@ && pv[1] == parts@[1]@ && pv[2] == parts@[2]@ && pv[3] == parts@[3]@);
    let e = match parse_u32(parts[0].as_slice()) {
        Some(e) => e,
        None => {
            return Err(McError::InvalidIterations);
        },
    };
    let check_text = chars_to_string(parts[1].as_slice());
    let salt_text = chars_to_string(parts[2].as_slice());
    let iv_text = chars_to_string(parts[3].as_slice());
    let key_check = base64_decode(check_text.as_str());
    let salt = base64_decode(salt_text.as_str());
    let iv = base64_decode(iv_text.as_str());
    let iterations = two_to_the(e);
    let derived = match pbkdf2_hmac_sha256(password, salt.as_slice(), iterations, 256) {
        Ok(d) => d,
        Err(err) => {
            return Err(McError::Crypto(err));
        },
    };
    match aes_cbc_decrypt_nopadding(key_check.as_slice(), derived.as_slice(), iv.as_slice()) {
        Ok(_) => Ok((derived, iv)),
        Err(err) => Err(McError::Crypto(err)),
    }
}

// ---------------------------------------------------------------------------
// Answers of the service
// ---------------------------------------------------------------------------

/// Metadata of a file behind a MegaCrypter link.
pub struct McFileMetadata {
    pub name: String,
    pub size: u64,
    pub key: String,
    pub password_hash: Option<String>,
    pub noexpire_token: Option<String>,
    pub path: Option<String>,
}

/// The fields of the service's answer about a link.
pub struct McInfoReply {
    /// The error value, as JSON text, where the answer has one.
    pub error: Option<String>,
    pub pass: Option<String>,
    pub name: Option<String>,
    pub key: Option<String>,
    pub size: Option<u64>,
    pub noexpire: Option<String>,
    pub path: Option<String>,
}

/// The text of a service error.
pub open spec fn api_error_text(e: Seq<char>) -> Seq<char> {
    "MegaCrypter error: "@ + e
}

fn api_error(e: &String) -> (r: McError)
    ensures
        r@ == McErrorView::Api(api_error_text(e@)),
{
    let mut s = String::from_str("MegaCrypter error: ");
    s.append(e.as_str());
    McError::Api(s)
}

fn clone_opt(o: &Option<String>) -> (r: Option<String>)
    ensures
        opt_text(r) == opt_text(*o),
{
    match o {
        Some(s) => Some(s.clone()),
        None => None,
    }
}

/// The name and key of an unprotected link's answer: `unknown` and the
/// empty key where it lacks them.
pub open spec fn plain_name_key(reply: McInfoReply) -> (Seq<char>, Seq<char>) {
    (
        match reply.name { Some(n) => n@, None => "unknown"@ },
        match reply.key { Some(k) => k@, None => Seq::empty() },
    )
}

/// The name and key of a protected link's answer, decrypted with the key
/// the password gives: the name as UTF-8 text, the key in URL-safe base64.
pub open spec fn protected_name_key(reply: McInfoReply, key: Seq<u8>) -> Result<(Seq<char>, Seq<char>), McErrorView> {
    match reply.name {
        None => Err(McErrorView::MissingName),
        Some(enc_name) => {
            let name_data = or_empty(url_safe_no_pad_decoding(enc_name@));
            if key.len() != 16 {
                Err(McErrorView::Crypto(key_length_error(key.len())))
            } else {
                match aes128_cbc_decrypt_pkcs7(key, zero_block(), name_data) {
                    None => Err(McErrorView::Crypto(CryptoError::DecryptionFailed)),
                    Some(name_bytes) => if !valid_utf8(name_bytes) {
                        Err(McErrorView::InvalidUtf8)
                    } else {
                        match reply.key {
                            None => Err(McErrorView::MissingKey),
                            Some(enc_key) => match aes128_cbc_decrypt_pkcs7(key, zero_block(),
                                or_empty(url_safe_no_pad_decoding(enc_key@))) {
                                None => Err(McErrorView::Crypto(CryptoError::DecryptionFailed)),
                                Some(k) => Ok((decode_utf8(name_bytes), url_safe_no_pad_encoding(k))),
                            },
                        }
                    },
                }
            }
        },
    }
}

/// The metadata an answer gives: an error answer fails; a protected link
/// needs the password, whose key decrypts the name and key; an unprotected
/// one gives them as they are. The size is 0 where the answer has none.
pub open spec fn spec_mc_metadata(reply: McInfoReply, password: Option<Seq<char>>) -> Result<(Seq<char>, Seq<char>), McErrorView> {
    match reply.error {
        Some(e) => Err(McErrorView::Api(api_error_text(e@))),
        None => match reply.pass {
            None => Ok(plain_name_key(reply)),
            Some(pf) => match password {
                None => Err(McErrorView::PasswordRequired),
                Some(pw) => match spec_mc_password_key(pf@, pw) {
                    Err(e) => Err(e),
                    Ok((key, _)) => protected_name_key(reply, key),
                },
            },
        },
    }
}

/// Whether the password field of an answer, where it has one, can be
/// worked with (see [`pass_field_in_range`]).
pub open spec fn reply_in_range(reply: McInfoReply) -> bool {
    match reply.pass {
        Some(pf) => pass_field_in_range(pf@),
        None => true,
    }
}

/// Whether the password field of an answer can be worked with: its
/// iteration exponent, where it has one, is below 32.
pub fn reply_supported(reply: &McInfoReply) -> (r: bool)
    ensures
        r == reply_in_range(*reply),
{
    match &reply.pass {
        None => true,
        Some(pf) => {
            let chars = str_chars(pf.as_str());
            let parts = split_chars(chars.as_slice(), '#');
            let ghost pv = parts@.map_values(|v: Vec<char>| v@);
            if parts.len() < 4 {
                return true;
            }
            assert(pv[0] == parts@[0]@);
            match parse_u32(parts[0].as_slice()) {
                Some(e) => e < 32,
                None => true,
            }
        },
    }
}

fn decrypt_with(data_b64: &String, key: &[u8]) -> (r: Result<Vec<u8>, McError>)
    ensures
        match r {
            Ok(v) => key@.len() == 16 && aes128_cbc_decrypt_pkcs7(key@, zero_block(),
                or_empty(url_safe_no_pad_decoding(data_b64@))) == Some(v@),
            Err(e) => if key@.len() != 16 {
                e@ == McErrorView::Crypto(key_length_error(key@.len()))
            } else {
                aes128_cbc_decrypt_pkcs7(key@, zero_block(), or_empty(url_safe_no_pad_decoding(data_b64@))) is None
                    && e@ == McErrorView::Crypto(CryptoError::DecryptionFailed)
            },
        },
{
    let data = url_base64_decode(data_b64.as_str());
    let iv = AES_ZERO_IV;
    assert(iv@ =~= zero_block());
    match aes_cbc_decrypt_pkcs7(data.as_slice(), key, &iv) {
        Ok(v) => Ok(v),
        Err(e) => Err(McError::Crypto(e)),
    }
}

/// The metadata of a link that the service's answer gives.
pub fn mc_metadata_from_reply(reply: &McInfoReply, password: Option<&str>) -> (r: Result<McFileMetadata, McError>)
    requires
        reply_in_range(*reply),
    ensures
        match spec_mc_metadata(*reply, match password { Some(p) => Some(p@), None => None }) {
            Ok((name, key)) => r matches Ok(m) && m.name@ == name && m.key@ == key
                && m.size == (match reply.size { Some(s) => s, None => 0 })
                && opt_text(m.password_hash) == opt_text(reply.pass)
                && opt_text(m.noexpire_token) == opt_text(reply.noexpire)
                && opt_text(m.path) == opt_text(reply.path),
            Err(e) => r matches Err(e2) && e2@ == e,
        },
{
    if let Some(e) = &reply.error {
        return Err(api_error(e));
    }
    let (name, key) = match &reply.pass {
        Some(pf) => {
            let pw = match password {
                Some(p) => p,
                None => {
                    return Err(McError::PasswordRequired);
                },
            };
            let derived = match derive_mc_password_key(pf.as_str(), pw) {
                Ok((k, _)) => k,
                Err(e) => {
                    return Err(e);
                },
            };
            let enc_name = match &reply.name {
                Some(n) => n,
                None => {
                    return Err(McError::MissingName);
                },
            };
            let name_bytes = match decrypt_with(enc_name, derived.as_slice()) {
                Ok(b) => b,
                Err(e) => {
                    return Err(e);
                },
            };
            let name = match utf8_string(name_bytes) {
                Some(n) => n,
                None => {
                    return Err(McError::InvalidUtf8);
                },
            };
            let enc_key = match &reply.key {
                Some(k) => k,
                None => {
                    return Err(McError::MissingKey);
                },
            };
            let key_bytes = match decrypt_with(enc_key, derived.as_slice()) {
                Ok(b) => b,
                Err(e) => {
                    return Err(e);
                },
            };
            (name, url_base64_encode(key_bytes.as_slice()))
        },
        None => {
            let name = match &reply.name {
                Some(n) => n.clone(),
                None => String::from_str("unknown"),
            };
            let key = match &reply.key {
                Some(k) => k.clone(),
                None => String::new(),
            };
            (name, key)
        },
    };
    Ok(McFileMetadata {
        name,
        size: match reply.size {
            Some(s) => s,
            None => 0,
        },
        key,
        password_hash: clone_opt(&reply.pass),
        noexpire_token: clone_opt(&reply.noexpire),
        path: clone_opt(&reply.path),
    })
}

/// The download URL the service's answer gives: an error answer fails, as
/// does one without a URL; for a protected link the URL is decrypted with
/// the password hash as key and read as UTF-8.
pub open spec fn spec_mc_download_url(error: Option<String>, url: Option<String>, pass_hash: Option<Seq<char>>) -> Result<Seq<char>, McErrorView> {
    match error {
        Some(e) => Err(McErrorView::Api(api_error_text(e@))),
        None => match url {
            None => Err(McErrorView::MissingUrl),
            Some(u) => match pass_hash {
                None => Ok(u@),
                Some(p) => {
                    let key = or_empty(url_safe_no_pad_decoding(p));
                    if key.len() != 16 {
                        Err(McErrorView::Crypto(key_length_error(key.len())))
                    } else {
                        match aes128_cbc_decrypt_pkcs7(key, zero_block(), or_empty(url_safe_no_pad_decoding(u@))) {
                            None => Err(McErrorView::Crypto(CryptoError::DecryptionFailed)),
                            Some(b) => if valid_utf8(b) { Ok(decode_utf8(b)) } else { Err(McErrorView::InvalidUtf8) },
                        }
                    }
                },
            },
        },
    }
}

/// The download URL of a link that the service's answer gives.
pub fn mc_download_url_from_reply(error: &Option<String>, url: &Option<String>, pass_hash: Option<&str>) -> (r: Result<String, McError>)
    ensures
        match spec_mc_download_url(*error, *url, match pass_hash { Some(p) => Some(p@), None => None }) {
            Ok(u) => r matches Ok(s) && s@ == u,
            Err(e) => r matches Err(e2) && e2@ == e,
        },
{
    if let Some(e) = error {
        return Err(api_error(e));
    }
    let u = match url {
        Some(u) => u,
        None => {
            return Err(McError::MissingUrl);
        },
    };
    match pass_hash {
        None => Ok(u.clone()),
        Some(p) => {
            let key = url_base64_decode(p);
            let bytes = match decrypt_with(u, key.as_slice()) {
                Ok(b) => b,
                Err(e) => {
                    return Err(e);
                },
            };
            match utf8_string(bytes) {
                Some(s) => Ok(s),
                None => Err(McError::InvalidUtf8),
            }
        },
    }
}

} // verus!
