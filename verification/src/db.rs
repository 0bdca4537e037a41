//! The records the application keeps in its database.

use vstd::prelude::*;
use vstd::string::StringExecFns;
use crate::mega_api::types::MegaSession;
use crate::util::{bin_to_hex, hex_lower, i32a_to_bin, i32s_to_bytes};

verus! {

/// A download that is under way, kept so that it can be resumed.
pub struct DownloadRecord {
    pub url: String,
    pub email: Option<String>,
    pub path: String,
    pub filename: String,
    pub filekey: String,
    pub filesize: u64,
    pub filepass: Option<String>,
    pub filenoexpire: Option<String>,
    pub custom_chunks_dir: Option<String>,
}

/// A MEGA account.
pub struct MegaAccountRecord {
    pub email: String,
    pub password: String,
    pub password_aes: String,
    pub user_hash: String,
}

/// A stored session of a MEGA account.
pub struct MegaSessionRecord {
    pub email: String,
    pub data: Vec<u8>,
    pub encrypted: bool,
}

/// An account of an ELC link service.
pub struct ElcAccountRecord {
    pub host: String,
    pub user: String,
    pub apikey: String,
}

impl MegaAccountRecord {
    /// The record of an account that logged in: its e-mail and password,
    /// the session's password key as lower-case hex of its big-endian
    /// bytes, and the session's user hash.
    pub fn for_session(email: &str, password: &str, session: &MegaSession) -> (r: MegaAccountRecord)
        requires
            session.password_aes@.len() * 4 <= usize::MAX,
        ensures
            r.email@ == email@,
            r.password@ == password@,
            r.password_aes@ == hex_lower(i32s_to_bytes(session.password_aes@)),
            r.user_hash@ == session.user_hash@,
    {
        let key_bytes = i32a_to_bin(session.password_aes.as_slice());
        MegaAccountRecord {
            email: String::from_str(email),
            password: String::from_str(password),
            password_aes: bin_to_hex(key_bytes.as_slice()),
            user_hash: session.user_hash.clone(),
        }
    }
}

} // verus!
