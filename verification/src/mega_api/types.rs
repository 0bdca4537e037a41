//! The records the MEGA API client builds: the session, file metadata,
//! nodes of public folders and the RSA key of an account.

use vstd::prelude::*;
use crate::text::opt_text;

verus! {

/// A logged-in MEGA session.
pub struct MegaSession {
    /// The e-mail, lower-cased and cut at the first `#`.
    pub email: String,
    /// The e-mail as it was given.
    pub full_email: String,
    /// The session id, where the account has an RSA key.
    pub sid: Option<String>,
    /// The account's master key.
    pub master_key: Vec<i32>,
    /// The key derived from the password.
    pub password_aes: Vec<i32>,
    /// The hash that identifies the password to the server.
    pub user_hash: String,
    pub root_id: Option<String>,
    pub inbox_id: Option<String>,
    pub trashbin_id: Option<String>,
    /// The account's key derivation version (1 = legacy, 2 = PBKDF2).
    pub account_version: i32,
    /// The PBKDF2 salt of a version 2 account.
    pub salt: Option<String>,
}

/// Name, size and key of a file.
pub struct FileMetadata {
    pub name: String,
    pub size: u64,
    pub key: String,
}

/// A node of a public folder.
pub struct FolderNode {
    pub handle: String,
    pub parent: String,
    pub name: Option<String>,
    /// 0 = file, 1 = folder, 2 = root, 3 = inbox, 4 = trash.
    pub node_type: i32,
    pub size: Option<u64>,
    pub key: Option<String>,
}

/// The components of an RSA private key, each a big-endian number (an
/// empty sequence is zero).
pub struct RsaPrivKey {
    pub p: Vec<u8>,
    pub q: Vec<u8>,
    pub d: Vec<u8>,
    pub u: Vec<u8>,
}

/// A session, its texts taken by value.
pub struct SessionView {
    pub email: Seq<char>,
    pub full_email: Seq<char>,
    pub sid: Option<Seq<char>>,
    pub master_key: Seq<i32>,
    pub password_aes: Seq<i32>,
    pub user_hash: Seq<char>,
    pub root_id: Option<Seq<char>>,
    pub inbox_id: Option<Seq<char>>,
    pub trashbin_id: Option<Seq<char>>,
    pub account_version: i32,
    pub salt: Option<Seq<char>>,
}

impl View for MegaSession {
    type V = SessionView;

    open spec fn view(&self) -> SessionView {
        SessionView {
            email: self.email@,
            full_email: self.full_email@,
            sid: opt_text(self.sid),
            master_key: self.master_key@,
            password_aes: self.password_aes@,
            user_hash: self.user_hash@,
            root_id: opt_text(self.root_id),
            inbox_id: opt_text(self.inbox_id),
            trashbin_id: opt_text(self.trashbin_id),
            account_version: self.account_version,
            salt: opt_text(self.salt),
        }
    }
}

} // verus!
