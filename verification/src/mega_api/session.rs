//! Establishing a session from the login answer: the master key, the RSA
//! private key it unlocks, and the session id that key decrypts.

use vstd::prelude::*;
use vstd::arithmetic::power::pow;
use vstd::string::StringExecFns;
use crate::crypto::{crypto_error_text, decrypt_key, rsa_decrypt, spec_decrypt_key, CryptoError};
use crate::text::opt_text;
use crate::util::{
    be_nat, bin_to_i32a, bytes_to_i32s, i32a_to_bin, i32s_to_bytes, is_minimal_be, mpi_to_big, or_empty,
    spec_mpi_value_bytes, url_base64_decode, url_base64_encode, url_safe_no_pad_decoding,
    url_safe_no_pad_encoding,
};
use super::errors::{ApiErrorView, MegaApiError};
use super::types::{MegaSession, RsaPrivKey, SessionView};

verus! {

// ---------------------------------------------------------------------------
// The RSA private key
// ---------------------------------------------------------------------------

/// One MPI read at `pos`: a 2-byte big-endian bit length, then the value in
/// `(bits + 7) / 8` bytes. Where the data ends first the value is zero
/// (empty); the position moves past the length when it could be read, and
/// past the value when that could be read too.
pub open spec fn spec_read_mpi(data: Seq<u8>, pos: nat) -> (Seq<u8>, nat) {
    if pos + 2 > data.len() {
        (Seq::empty(), pos)
    } else {
        let byte_len = ((data[pos as int] as nat * 256 + data[pos + 1int] as nat) + 7) / 8;
        let start = pos + 2;
        if start + byte_len > data.len() {
            (Seq::empty(), start)
        } else {
            (data.subrange(start as int, (start + byte_len) as int), start + byte_len)
        }
    }
}

/// The four numbers `p`, `q`, `d`, `u` of a decrypted private key, read one
/// after the other.
pub open spec fn spec_rsa_key(data: Seq<u8>) -> (Seq<u8>, Seq<u8>, Seq<u8>, Seq<u8>) {
    let (p, o1) = spec_read_mpi(data, 0);
    let (q, o2) = spec_read_mpi(data, o1);
    let (d, o3) = spec_read_mpi(data, o2);
    let (u, o4) = spec_read_mpi(data, o3);
    (p, q, d, u)
}

fn read_mpi(data: &[u8], pos: usize) -> (r: (Vec<u8>, usize))
    requires
        pos <= data@.len(),
    ensures
        (r.0@, r.1 as nat) == spec_read_mpi(data@, pos as nat),
        r.1 <= data@.len(),
{
    if data.len() - pos < 2 {
        return (Vec::new(), pos);
    }
    let bit_len = (data[pos] as usize) * 256 + (data[pos + 1] as usize);
    let byte_len = (bit_len + 7) / 8;
    let start = pos + 2;
    if byte_len > data.len() - start {
        return (Vec::new(), start);
    }
    let end = start + byte_len;
    (vstd::slice::slice_to_vec(vstd::slice::slice_subrange(data, start, end)), end)
}

/// Reads the RSA private key (`p`, `q`, `d`, `u`, MPI-encoded one after the
/// other) out of a decrypted key blob.
pub fn extract_rsa_priv_key(privk_bytes: &[u8]) -> (r: RsaPrivKey)
    ensures
        (r.p@, r.q@, r.d@, r.u@) == spec_rsa_key(privk_bytes@),
{
    let (p, o1) = read_mpi(privk_bytes, 0);
    let (q, o2) = read_mpi(privk_bytes, o1);
    let (d, o3) = read_mpi(privk_bytes, o2);
    let (u, o4) = read_mpi(privk_bytes, o3);
    RsaPrivKey { p, q, d, u }
}

// ---------------------------------------------------------------------------
// The session id
// ---------------------------------------------------------------------------

/// The shortest big-endian bytes of `n` (`[0]` for zero).
pub open spec fn minimal_be_bytes(n: nat) -> Seq<u8>
    decreases n,
{
    if n < 256 {
        seq![n as u8]
    } else {
        minimal_be_bytes(n / 256).push((n % 256) as u8)
    }
}

proof fn lemma_be_nat_leading_positive(s: Seq<u8>)
    requires
        s.len() >= 1,
        s[0] != 0,
    ensures
        be_nat(s) > 0,
    decreases s.len(),
{
    if s.len() > 1 {
        lemma_be_nat_leading_positive(s.drop_last());
    }
}

/// Big-endian bytes in their shortest form are the shortest bytes of their value.
pub proof fn lemma_minimal_be_unique(s: Seq<u8>)
    requires
        is_minimal_be(s),
    ensures
        s == minimal_be_bytes(be_nat(s)),
    decreases s.len(),
{
    if s.len() == 1 {
        assert(s.drop_last() =~= Seq::<u8>::empty());
        assert(be_nat(s.drop_last()) == 0);
        assert(s.last() == s[0]);
        assert(be_nat(s) == be_nat(s.drop_last()) * 256 + s.last() as nat);
        assert(be_nat(s) == s[0] as nat);
        assert(s =~= seq![s[0]]);
    } else {
        let t = s.drop_last();
        assert(t[0] == s[0]);
        lemma_be_nat_leading_positive(t);
        lemma_minimal_be_unique(t);
        let n = be_nat(s);
        assert(n == be_nat(t) * 256 + s.last() as nat);
        assert(n / 256 == be_nat(t) && n % 256 == s.last() as nat) by (nonlinear_arith)
            requires n == be_nat(t) * 256 + s.last() as nat, (s.last() as nat) < 256;
        assert(n >= 256);
        assert(s =~= t.push(s.last()));
    }
}

/// The session id that an RSA key gives an encrypted session id: the MPI
/// value of the decoded text raised to `d` modulo `p * q`, its shortest
/// big-endian bytes cut to 43, in URL-safe base64.
pub open spec fn spec_session_id(key: (Seq<u8>, Seq<u8>, Seq<u8>, Seq<u8>), csid: Seq<char>) -> Seq<char> {
    let c = spec_mpi_value_bytes(or_empty(url_safe_no_pad_decoding(csid)));
    let m = pow(be_nat(c) as int, be_nat(key.2)) % ((be_nat(key.0) * be_nat(key.1)) as int);
    let raw = minimal_be_bytes(m as nat);
    url_safe_no_pad_encoding(raw.subrange(0, if raw.len() < 43 { raw.len() as int } else { 43 }))
}

/// Decrypts an encrypted session id with an account's RSA key. The modulus
/// `p * q` may not be zero.
pub fn decrypt_session_id(key: &RsaPrivKey, csid: &str) -> (r: String)
    requires
        be_nat(key.p@) * be_nat(key.q@) > 0,
    ensures
        r@ == spec_session_id((key.p@, key.q@, key.d@, key.u@), csid@),
{
    let csid_bytes = url_base64_decode(csid);
    let csid_big = mpi_to_big(csid_bytes.as_slice());
    let raw_sid = rsa_decrypt(csid_big.as_slice(), key.p.as_slice(), key.q.as_slice(), key.d.as_slice());
    proof {
        lemma_minimal_be_unique(raw_sid@);
    }
    let sid_len = if raw_sid.len() < 43 { raw_sid.len() } else { 43 };
    url_base64_encode(vstd::slice::slice_subrange(raw_sid.as_slice(), 0, sid_len))
}

// ---------------------------------------------------------------------------
// The session
// ---------------------------------------------------------------------------

/// The fields of a login answer that the session is made from.
pub struct LoginReply {
    /// The master key, encrypted with the password key.
    pub k: Option<String>,
    /// The session id, encrypted with the account's RSA key.
    pub csid: Option<String>,
    /// The RSA private key, encrypted with the master key.
    pub privk: Option<String>,
}

/// The master key that the password key decrypts out of `k`.
pub open spec fn spec_master_key(k: Seq<char>, password_aes: Seq<i32>) -> Result<Seq<i32>, CryptoError> {
    match spec_decrypt_key(or_empty(url_safe_no_pad_decoding(k)), i32s_to_bytes(password_aes)) {
        Ok(b) => Ok(bytes_to_i32s(b)),
        Err(e) => Err(e),
    }
}

/// The RSA key blob that the master key decrypts out of `privk` (its whole
/// 4-byte groups).
pub open spec fn spec_privk_bytes(privk: Seq<char>, master_key: Seq<i32>) -> Result<Seq<u8>, CryptoError> {
    spec_decrypt_key(
        i32s_to_bytes(bytes_to_i32s(or_empty(url_safe_no_pad_decoding(privk)))),
        i32s_to_bytes(master_key),
    )
}

/// A session with no special folders known yet.
pub open spec fn new_session(
    full_email: Seq<char>,
    email: Seq<char>,
    password_aes: Seq<i32>,
    user_hash: Seq<char>,
    version: i32,
    salt: Option<Seq<char>>,
    master_key: Seq<i32>,
    sid: Option<Seq<char>>,
) -> SessionView {
    SessionView {
        email,
        full_email,
        sid,
        master_key,
        password_aes,
        user_hash,
        root_id: None,
        inbox_id: None,
        trashbin_id: None,
        account_version: version,
        salt,
    }
}

/// The session a login answer establishes, or why it cannot. A missing `k`,
/// a `csid` without `privk`, and keys that fail to decrypt are errors; so
/// is an RSA key whose modulus `p * q` is zero.
pub open spec fn spec_login_session(
    full_email: Seq<char>,
    email: Seq<char>,
    password_aes: Seq<i32>,
    user_hash: Seq<char>,
    version: i32,
    salt: Option<Seq<char>>,
    k: Option<Seq<char>>,
    csid: Option<Seq<char>>,
    privk: Option<Seq<char>>,
) -> Result<SessionView, ApiErrorView> {
    match k {
        None => Err(ApiErrorView::InvalidResponse("Missing k field"@)),
        Some(k) => match spec_master_key(k, password_aes) {
            Err(e) => Err(ApiErrorView::CryptoError(crypto_error_text(e))),
            Ok(mk) => match csid {
                None => Ok(new_session(full_email, email, password_aes, user_hash, version, salt, mk, None)),
                Some(c) => match privk {
                    None => Err(ApiErrorView::InvalidResponse("Missing privk"@)),
                    Some(pk) => match spec_privk_bytes(pk, mk) {
                        Err(e) => Err(ApiErrorView::CryptoError(crypto_error_text(e))),
                        Ok(b) => {
                            let key = spec_rsa_key(b);
                            if be_nat(key.0) * be_nat(key.1) == 0 {
                                Err(ApiErrorView::CryptoError("RSA modulus is zero"@))
                            } else {
                                Ok(new_session(full_email, email, password_aes, user_hash, version, salt, mk,
                                    Some(spec_session_id(key, c))))
                            }
                        },
                    },
                },
            },
        },
    }
}

/// A session or an error, taken by value.
pub open spec fn session_result(r: Result<MegaSession, MegaApiError>) -> Result<SessionView, ApiErrorView> {
    match r {
        Ok(s) => Ok(s@),
        Err(e) => Err(e@),
    }
}

/// Establishes the session that a login answer describes.
pub fn login_session(
    full_email: &str,
    email: &str,
    password_aes: Vec<i32>,
    user_hash: String,
    version: i32,
    salt: Option<String>,
    reply: &LoginReply,
) -> (r: Result<MegaSession, MegaApiError>)
    requires
        password_aes@.len() * 4 <= usize::MAX,
    ensures
        session_result(r) == spec_login_session(full_email@, email@, password_aes@, user_hash@, version,
            opt_text(salt), opt_text(reply.k), opt_text(reply.csid), opt_text(reply.privk)),
{
    let k = match &reply.k {
        Some(k) => k,
        None => {
            return Err(MegaApiError::InvalidResponse(String::from_str("Missing k field")));
        },
    };
    let k_bytes = url_base64_decode(k.as_str());
    let pass_key_bytes = i32a_to_bin(password_aes.as_slice());
    let master_key_bytes = match decrypt_key(k_bytes.as_slice(), pass_key_bytes.as_slice()) {
        Ok(b) => b,
        Err(e) => {
            return Err(MegaApiError::CryptoError(e.message()));
        },
    };
    let master_key = bin_to_i32a(master_key_bytes.as_slice());
    let ghost mk_len = master_key_bytes.len();
    assert(master_key@.len() * 4 <= mk_len);
    let sid = match &reply.csid {
        None => None,
        Some(csid) => {
            let privk = match &reply.privk {
                Some(p) => p,
                None => {
                    return Err(MegaApiError::InvalidResponse(String::from_str("Missing privk")));
                },
            };
            let enc_privk_bytes = url_base64_decode(privk.as_str());
            let enc_privk_i32 = bin_to_i32a(enc_privk_bytes.as_slice());
            let ghost enc_len = enc_privk_bytes.len();
            assert(enc_privk_i32@.len() * 4 <= enc_len);
            let master_key_blob = i32a_to_bin(master_key.as_slice());
            let enc_blob = i32a_to_bin(enc_privk_i32.as_slice());
            let privk_bytes = match decrypt_key(enc_blob.as_slice(), master_key_blob.as_slice()) {
                Ok(b) => b,
                Err(e) => {
                    return Err(MegaApiError::CryptoError(e.message()));
                },
            };
            let rsa_priv_key = extract_rsa_priv_key(privk_bytes.as_slice());
            if !has_nonzero_modulus(&rsa_priv_key) {
                return Err(MegaApiError::CryptoError(String::from_str("RSA modulus is zero")));
            }
            Some(decrypt_session_id(&rsa_priv_key, csid.as_str()))
        },
    };
    Ok(MegaSession {
        email: String::from_str(email),
        full_email: String::from_str(full_email),
        sid,
        master_key,
        password_aes,
        user_hash,
        root_id: None,
        inbox_id: None,
        trashbin_id: None,
        account_version: version,
        salt,
    })
}

/// Whether a big-endian number is not zero.
fn is_nonzero(n: &[u8]) -> (r: bool)
    ensures
        r == (be_nat(n@) > 0),
{
    let mut i: usize = 0;
    while i < n.len()
        invariant
            i <= n@.len(),
            forall|k: int| 0 <= k < i ==> n@[k] == 0,
        decreases n@.len() - i,
    {
        if n[i] != 0 {
            proof {
                lemma_be_nat_positive_at(n@, i as int);
            }
            return true;
        }
        i = i + 1;
    }
    proof {
        lemma_be_nat_all_zero(n@);
    }
    false
}

proof fn lemma_be_nat_all_zero(s: Seq<u8>)
    requires
        forall|k: int| 0 <= k < s.len() ==> s[k] == 0,
    ensures
        be_nat(s) == 0,
    decreases s.len(),
{
    if s.len() > 0 {
        lemma_be_nat_all_zero(s.drop_last());
    }
}

proof fn lemma_be_nat_positive_at(s: Seq<u8>, i: int)
    requires
        0 <= i < s.len(),
        s[i] != 0,
    ensures
        be_nat(s) > 0,
    decreases s.len(),
{
    if i < s.len() - 1 {
        lemma_be_nat_positive_at(s.drop_last(), i);
        assert(be_nat(s) == be_nat(s.drop_last()) * 256 + s.last() as nat);
    }
}

/// Whether an RSA key's modulus `p * q` is not zero.
fn has_nonzero_modulus(key: &RsaPrivKey) -> (r: bool)
    ensures
        r == (be_nat(key.p@) * be_nat(key.q@) > 0),
{
    let p = is_nonzero(key.p.as_slice());
    let q = is_nonzero(key.q.as_slice());
    proof {
        let a = be_nat(key.p@);
        let b = be_nat(key.q@);
        assert((a > 0 && b > 0) == (a * b > 0)) by (nonlinear_arith);
    }
    p && q
}

} // verus!
