//! Decoding what the API says about files and folders: encrypted attribute
//! blocks, the nodes of public folders, file metadata and download URLs,
//! the account's special folders, and the request URLs.

use vstd::prelude::*;
use vstd::string::StringExecFns;
use vstd::utf8::{decode_utf8, valid_utf8};
use crate::crypto::{
    aes_cbc_decrypt_nopadding, init_mega_link_key, spec_cbc_decrypt_nopadding, spec_link_key, trim_trailing_zeros,
    zero_block, AES_ZERO_IV,
};
use crate::text::{
    chars_to_string, decimal, last_piece, last_piece_chars, opt_text, push_decimal, str_chars, strip_leading,
    strip_leading_chars, trim_chars, trimmed, utf8_string,
};
use crate::util::{or_empty, url_base64_decode, url_safe_no_pad_decoding};
use super::errors::{ApiErrorView, MegaApiError};
use super::types::{FileMetadata, FolderNode, MegaSession};

verus! {

// ---------------------------------------------------------------------------
// Attribute blocks
// ---------------------------------------------------------------------------

/// The JSON value of member `key` of the object that `text` holds, where it
/// is a string, as `serde_json` reads it: `None` where `text` is not JSON,
/// `Some(None)` where it is but has no such string member.
pub uninterp spec fn json_string_member(text: Seq<char>, key: Seq<char>) -> Option<Option<Seq<char>>>;

/// An optional optional string, taken by value.
pub open spec fn opt_opt_text(o: Option<Option<String>>) -> Option<Option<Seq<char>>> {
    match o {
        Some(inner) => Some(opt_text(inner)),
        None => None,
    }
}

/// `serde_json::from_str` into a `Value`, then the string member `key`.
#[verifier::external_body]
fn json_member_str(text: &str, key: &str) -> (r: Option<Option<String>>)
    ensures
        opt_opt_text(r) == json_string_member(text@, key@),
{
    match serde_json::from_str::<serde_json::Value>(text) {
        Ok(v) => Some(v.get(key).and_then(|m| m.as_str()).map(String::from)),
        Err(_) => None,
    }
}

/// `data` followed by zeros up to a whole number of 16-byte blocks.
pub open spec fn zero_padded_blocks(data: Seq<u8>) -> Seq<u8> {
    data + Seq::new(((16 - data.len() % 16) % 16) as nat, |i: int| 0u8)
}

/// Decrypted attribute bytes without their trailing zeros; bytes that are
/// all zero stay as they are.
pub open spec fn attribute_text_bytes(d: Seq<u8>) -> Seq<u8> {
    if trim_trailing_zeros(d).len() == 0 { d } else { trim_trailing_zeros(d) }
}

/// The name an attribute block holds: the block decoded from URL-safe
/// base64, zero-padded to whole blocks, decrypted with AES-128-CBC under
/// `key` and a zero IV, stripped of trailing zeros, read as UTF-8, stripped
/// of leading `MEGA` and of white space, and parsed as JSON; the name is its
/// `n` member, `unknown` where it has none. `None` where a step fails.
pub open spec fn spec_attribute_name(at: Seq<char>, key: Seq<u8>) -> Option<Seq<char>> {
    let padded = zero_padded_blocks(or_empty(url_safe_no_pad_decoding(at)));
    match spec_cbc_decrypt_nopadding(padded, key, zero_block()) {
        Err(_) => None,
        Ok(d) => {
            let t = attribute_text_bytes(d);
            if !valid_utf8(t) {
                None
            } else {
                let json = trimmed(strip_leading(decode_utf8(t), "MEGA"@));
                match json_string_member(json, "n"@) {
                    None => None,
                    Some(None) => Some("unknown"@),
                    Some(Some(n)) => Some(n),
                }
            }
        },
    }
}

fn zero_pad_blocks(data: Vec<u8>) -> (r: Vec<u8>)
    ensures
        r@ == zero_padded_blocks(data@),
{
    let ghost n = data@.len();
    let ghost pad = ((16 - n % 16) % 16) as nat;
    let mut padded = data;
    while padded.len() % 16 != 0
        invariant
            pad == ((16 - n % 16) % 16) as nat,
            n <= padded@.len() <= n + pad,
            padded@ == data@ + Seq::new((padded@.len() - n) as nat, |k: int| 0u8),
        decreases n + pad - padded@.len(),
    {
        padded.push(0u8);
        assert(padded@ =~= data@ + Seq::new((padded@.len() - n) as nat, |k: int| 0u8));
    }
    assert(padded@ =~= zero_padded_blocks(data@));
    padded
}

fn attribute_end(d: &[u8]) -> (end: usize)
    ensures
        end <= d@.len(),
        d@.subrange(0, end as int) == attribute_text_bytes(d@),
{
    let mut end = d.len();
    assert(d@.subrange(0, d@.len() as int) =~= d@);
    while end > 0 && d[end - 1] == 0
        invariant
            end <= d@.len(),
            trim_trailing_zeros(d@.subrange(0, end as int)) == trim_trailing_zeros(d@),
        decreases end,
    {
        assert(d@.subrange(0, end as int).drop_last() =~= d@.subrange(0, end - 1));
        end = end - 1;
    }
    assert(d@.subrange(0, end as int) == trim_trailing_zeros(d@.subrange(0, end as int))) by {
        if end > 0 {
            assert(d@.subrange(0, end as int).last() == d@[end - 1]);
        }
    }
    if end == 0 {
        d.len()
    } else {
        end
    }
}

/// Decrypts an attribute block with `key` and reads the name it holds.
pub fn decrypt_attribute_name(at_b64: &str, key: &[u8]) -> (r: Option<String>)
    ensures
        opt_text(r) == spec_attribute_name(at_b64@, key@),
{
    let at_bytes = url_base64_decode(at_b64);
    let padded = zero_pad_blocks(at_bytes);
    let iv = AES_ZERO_IV;
    assert(iv@ =~= zero_block());
    let decrypted = match aes_cbc_decrypt_nopadding(padded.as_slice(), key, &iv) {
        Ok(d) => d,
        Err(_) => {
            return None;
        },
    };
    let end = attribute_end(decrypted.as_slice());
    let text_bytes = vstd::slice::slice_to_vec(vstd::slice::slice_subrange(decrypted.as_slice(), 0, end));
    let text = match utf8_string(text_bytes) {
        Some(t) => t,
        None => {
            return None;
        },
    };
    let chars = str_chars(text.as_str());
    let mega: Vec<char> = vec!['M', 'E', 'G', 'A'];
    proof {
        reveal_strlit("MEGA");
    }
    assert(mega@ =~= "MEGA"@);
    let stripped = strip_leading_chars(chars.as_slice(), mega.as_slice());
    let json_chars = trim_chars(stripped.as_slice());
    let json = chars_to_string(json_chars.as_slice());
    match json_member_str(json.as_str(), "n") {
        None => None,
        Some(None) => Some(String::from_str("unknown")),
        Some(Some(n)) => Some(n),
    }
}

/// The name in a file's attribute block, decrypted with the file key's AES key.
pub fn decrypt_file_attributes(at_b64: &str, file_key: &str) -> (r: Option<String>)
    ensures
        opt_text(r) == spec_attribute_name(at_b64@, spec_link_key(or_empty(url_safe_no_pad_decoding(file_key@)))),
{
    let key = init_mega_link_key(file_key);
    decrypt_attribute_name(at_b64, key.as_slice())
}

/// The name in a folder node's attribute block, decrypted with the AES key
/// of the node's own key.
pub fn decrypt_folder_node_attributes(at_b64: &str, node_key: &str) -> (r: Option<String>)
    ensures
        opt_text(r) == spec_attribute_name(at_b64@, spec_link_key(or_empty(url_safe_no_pad_decoding(node_key@)))),
{
    let key = init_mega_link_key(node_key);
    decrypt_attribute_name(at_b64, key.as_slice())
}

// ---------------------------------------------------------------------------
// Nodes of public folders
// ---------------------------------------------------------------------------

/// The fields of a node as the folder listing gives them.
pub struct RawNode {
    /// `h`: the node's handle.
    pub handle: Option<String>,
    /// `p`: the parent's handle.
    pub parent: Option<String>,
    /// `t`: the node's type.
    pub node_type: Option<i64>,
    /// `s`: the file size.
    pub size: Option<u64>,
    /// `k`: `handle:key` pairs, the node's key last.
    pub key: Option<String>,
    /// `a`: the encrypted attribute block.
    pub attributes: Option<String>,
}

/// A folder node, its texts taken by value.
pub struct FolderNodeView {
    pub handle: Seq<char>,
    pub parent: Seq<char>,
    pub name: Option<Seq<char>>,
    pub node_type: i32,
    pub size: Option<u64>,
    pub key: Option<Seq<char>>,
}

impl View for FolderNode {
    type V = FolderNodeView;

    open spec fn view(&self) -> FolderNodeView {
        FolderNodeView {
            handle: self.handle@,
            parent: self.parent@,
            name: opt_text(self.name),
            node_type: self.node_type,
            size: self.size,
            key: opt_text(self.key),
        }
    }
}

/// An optional text, empty where there is none.
pub open spec fn text_or_empty(o: Option<String>) -> Seq<char> {
    match o {
        Some(s) => s@,
        None => Seq::empty(),
    }
}

/// The node a listing entry describes: missing handles are empty, a missing
/// type is 0 (cut to 32 bits otherwise); where the entry has a key, the
/// node's key is what follows its last `:`, and its name comes from the
/// attribute block decrypted with that key.
pub open spec fn spec_folder_node(raw: RawNode) -> FolderNodeView {
    let (name, key) = match raw.key {
        Some(k) => {
            let node_key = last_piece(k@, ':');
            let name = match raw.attributes {
                Some(at) => spec_attribute_name(at@, spec_link_key(or_empty(url_safe_no_pad_decoding(node_key)))),
                None => None,
            };
            (name, Some(node_key))
        },
        None => (None, None),
    };
    FolderNodeView {
        handle: text_or_empty(raw.handle),
        parent: text_or_empty(raw.parent),
        name,
        node_type: match raw.node_type {
            Some(t) => t as i32,
            None => 0i32,
        },
        size: raw.size,
        key,
    }
}

/// A listed node keeps what the listing says of it: its handle, its parent
/// and its size as given, and its type as given (a folder stays a folder,
/// type 1; a file, type 0), with type 0 where the entry gives none; its key
/// is the last `:`-separated piece of the entry's key.
pub proof fn lemma_folder_node_fields(raw: RawNode)
    ensures
        raw.node_type matches Some(t) ==> (i32::MIN <= t <= i32::MAX ==> spec_folder_node(raw).node_type as int == t as int),
        raw.node_type is None ==> spec_folder_node(raw).node_type == 0,
        raw.handle matches Some(h) ==> spec_folder_node(raw).handle == h@,
        raw.parent matches Some(p) ==> spec_folder_node(raw).parent == p@,
        spec_folder_node(raw).size == raw.size,
        raw.key matches Some(k) ==> spec_folder_node(raw).key == Some(last_piece(k@, ':')),
        raw.key is None ==> spec_folder_node(raw).key is None && spec_folder_node(raw).name is None,
{
}

fn clone_or_empty(o: &Option<String>) -> (r: String)
    ensures
        r@ == text_or_empty(*o),
{
    match o {
        Some(s) => s.clone(),
        None => String::new(),
    }
}

/// The node a listing entry describes.
pub fn folder_node(raw: &RawNode) -> (r: FolderNode)
    ensures
        r@ == spec_folder_node(*raw),
        raw.node_type matches Some(t) ==> (i32::MIN <= t <= i32::MAX ==> r.node_type as int == t as int),
        raw.node_type is None ==> r.node_type == 0,
{
    proof {
        lemma_folder_node_fields(*raw);
    }
    let (name, key) = match &raw.key {
        Some(k) => {
            let chars = str_chars(k.as_str());
            let node_key_chars = last_piece_chars(chars.as_slice(), ':');
            let node_key = chars_to_string(node_key_chars.as_slice());
            let name = match &raw.attributes {
                Some(at) => decrypt_folder_node_attributes(at.as_str(), node_key.as_str()),
                None => None,
            };
            (name, Some(node_key))
        },
        None => (None, None),
    };
    FolderNode {
        handle: clone_or_empty(&raw.handle),
        parent: clone_or_empty(&raw.parent),
        name,
        node_type: match raw.node_type {
            Some(t) => t as i32,
            None => 0,
        },
        size: raw.size,
        key,
    }
}

/// The nodes of a folder listing, in order.
pub fn folder_nodes(raw: &[RawNode]) -> (r: Vec<FolderNode>)
    ensures
        r@.len() == raw@.len(),
        forall|i: int| 0 <= i < raw@.len() ==> #[trigger] r@[i]@ == spec_folder_node(raw@[i]),
{
    let mut out: Vec<FolderNode> = Vec::new();
    let mut i: usize = 0;
    while i < raw.len()
        invariant
            i <= raw@.len(),
            out@.len() == i,
            forall|j: int| 0 <= j < i ==> #[trigger] out@[j]@ == spec_folder_node(raw@[j]),
        decreases raw@.len() - i,
    {
        out.push(folder_node(&raw[i]));
        i = i + 1;
    }
    out
}

/// The nodes of a folder listing: an answer without an object is an
/// error; an object without a node list has no nodes.
pub fn folder_nodes_from_reply(reply: Option<Vec<RawNode>>, has_object: bool) -> (r: Result<Vec<FolderNode>, MegaApiError>)
    ensures
        !has_object ==> (r matches Err(e) && e@ == ApiErrorView::InvalidResponse("Empty folder response"@)),
        has_object ==> (r matches Ok(nodes) && (match reply {
            Some(raw) => nodes@.len() == raw@.len()
                && forall|i: int| 0 <= i < raw@.len() ==> #[trigger] nodes@[i]@ == spec_folder_node(raw@[i]),
            None => nodes@.len() == 0,
        })),
{
    if !has_object {
        return Err(MegaApiError::InvalidResponse(String::from_str("Empty folder response")));
    }
    match reply {
        Some(raw) => Ok(folder_nodes(raw.as_slice())),
        None => Ok(Vec::new()),
    }
}

// ---------------------------------------------------------------------------
// File metadata and download URLs
// ---------------------------------------------------------------------------

/// The fields of an answer about a file.
pub struct FileReply {
    /// `s`: the size.
    pub size: Option<u64>,
    /// `at`: the encrypted attribute block.
    pub attributes: Option<String>,
    /// `g`: the download URL.
    pub url: Option<String>,
}

/// The name of a file whose answer carries an attribute block (`unknown`
/// where it carries none or it cannot be read).
pub open spec fn spec_file_name(at: Option<String>, file_key: Seq<char>) -> Seq<char> {
    match at {
        Some(a) => match spec_attribute_name(a@, spec_link_key(or_empty(url_safe_no_pad_decoding(file_key)))) {
            Some(n) => n,
            None => "unknown"@,
        },
        None => "unknown"@,
    }
}

fn file_name(at: &Option<String>, file_key: &str) -> (r: String)
    ensures
        r@ == spec_file_name(*at, file_key@),
{
    match at {
        Some(a) => match decrypt_file_attributes(a.as_str(), file_key) {
            Some(n) => n,
            None => String::from_str("unknown"),
        },
        None => String::from_str("unknown"),
    }
}

/// The metadata and download URL an answer gives (one request for both).
pub fn file_info_from_reply(reply: Option<FileReply>, file_key: &str) -> (r: Result<(FileMetadata, String), MegaApiError>)
    ensures
        match reply {
            None => r matches Err(e) && e@ == ApiErrorView::InvalidResponse("Empty g response"@),
            Some(f) => match f.size {
                None => r matches Err(e) && e@ == ApiErrorView::InvalidResponse("Missing size in g response"@),
                Some(size) => match f.url {
                    None => r matches Err(e) && e@ == ApiErrorView::InvalidResponse("Missing download URL in g response"@),
                    Some(u) => r matches Ok((m, url)) && m.size == size && m.name@ == spec_file_name(f.attributes, file_key@)
                        && m.key@ == file_key@ && url@ == u@,
                },
            },
        },
{
    let f = match reply {
        Some(f) => f,
        None => {
            return Err(MegaApiError::InvalidResponse(String::from_str("Empty g response")));
        },
    };
    let size = match f.size {
        Some(s) => s,
        None => {
            return Err(MegaApiError::InvalidResponse(String::from_str("Missing size in g response")));
        },
    };
    let name = file_name(&f.attributes, file_key);
    match f.url {
        Some(u) => Ok((FileMetadata { name, size, key: String::from_str(file_key) }, u)),
        None => Err(MegaApiError::InvalidResponse(String::from_str("Missing download URL in g response"))),
    }
}

/// The metadata an answer gives.
pub fn file_metadata_from_reply(reply: Option<FileReply>, file_key: &str) -> (r: Result<FileMetadata, MegaApiError>)
    ensures
        match reply {
            None => r matches Err(e) && e@ == ApiErrorView::InvalidResponse("Empty g response"@),
            Some(f) => match f.size {
                None => r matches Err(e) && e@ == ApiErrorView::InvalidResponse("Missing size"@),
                Some(size) => r matches Ok(m) && m.size == size && m.name@ == spec_file_name(f.attributes, file_key@)
                    && m.key@ == file_key@,
            },
        },
{
    let f = match reply {
        Some(f) => f,
        None => {
            return Err(MegaApiError::InvalidResponse(String::from_str("Empty g response")));
        },
    };
    match f.size {
        Some(size) => {
            let name = file_name(&f.attributes, file_key);
            Ok(FileMetadata { name, size, key: String::from_str(file_key) })
        },
        None => Err(MegaApiError::InvalidResponse(String::from_str("Missing size"))),
    }
}

/// The download URL an answer gives.
pub fn download_url_from_reply(reply: Option<FileReply>) -> (r: Result<String, MegaApiError>)
    ensures
        match reply {
            None => r matches Err(e) && e@ == ApiErrorView::InvalidResponse("Empty g response"@),
            Some(f) => match f.url {
                None => r matches Err(e) && e@ == ApiErrorView::InvalidResponse("Missing download URL"@),
                Some(u) => r matches Ok(url) && url@ == u@,
            },
        },
{
    match reply {
        Some(f) => match f.url {
            Some(u) => Ok(u),
            None => Err(MegaApiError::InvalidResponse(String::from_str("Missing download URL"))),
        },
        None => Err(MegaApiError::InvalidResponse(String::from_str("Empty g response"))),
    }
}

/// Whether the answer to a two-factor query says that it is enabled: its
/// first number is 1.
pub fn two_factor_enabled(values: &[i64]) -> (r: bool)
    ensures
        r == (values@.len() > 0 && values@[0] == 1),
{
    values.len() > 0 && values[0] == 1
}

// ---------------------------------------------------------------------------
// The account's special folders
// ---------------------------------------------------------------------------

/// The handle the last node of type `t` gives (a node of that type without
/// a handle gives none), or `current` where no node has that type. A node
/// without a type counts as type -1.
pub open spec fn last_handle_of_type(nodes: Seq<(Option<i64>, Option<Seq<char>>)>, t: i64, current: Option<Seq<char>>) -> Option<Seq<char>>
    decreases nodes.len(),
{
    if nodes.len() == 0 {
        current
    } else if (match nodes.last().0 { Some(x) => x, None => -1i64 }) == t {
        nodes.last().1
    } else {
        last_handle_of_type(nodes.drop_last(), t, current)
    }
}

/// The nodes' types and handles, taken by value.
pub open spec fn nodes_view(nodes: Seq<(Option<i64>, Option<String>)>) -> Seq<(Option<i64>, Option<Seq<char>>)> {
    nodes.map_values(|n: (Option<i64>, Option<String>)| (n.0, opt_text(n.1)))
}

impl MegaSession {
    /// Records the root (type 2), inbox (type 3) and trash (type 4) folders
    /// of the account from its node list; the last node of each type wins.
    pub fn apply_special_nodes(&mut self, nodes: &[(Option<i64>, Option<String>)])
        ensures
            final(self)@.root_id == last_handle_of_type(nodes_view(nodes@), 2, old(self)@.root_id),
            final(self)@.inbox_id == last_handle_of_type(nodes_view(nodes@), 3, old(self)@.inbox_id),
            final(self)@.trashbin_id == last_handle_of_type(nodes_view(nodes@), 4, old(self)@.trashbin_id),
            final(self)@.email == old(self)@.email,
            final(self)@.full_email == old(self)@.full_email,
            final(self)@.sid == old(self)@.sid,
            final(self)@.master_key == old(self)@.master_key,
            final(self)@.password_aes == old(self)@.password_aes,
            final(self)@.user_hash == old(self)@.user_hash,
            final(self)@.account_version == old(self)@.account_version,
            final(self)@.salt == old(self)@.salt,
    {
        let mut i: usize = 0;
        while i < nodes.len()
            invariant
                i <= nodes@.len(),
                self@.root_id == last_handle_of_type(nodes_view(nodes@.subrange(0, i as int)), 2, old(self)@.root_id),
                self@.inbox_id == last_handle_of_type(nodes_view(nodes@.subrange(0, i as int)), 3, old(self)@.inbox_id),
                self@.trashbin_id == last_handle_of_type(nodes_view(nodes@.subrange(0, i as int)), 4, old(self)@.trashbin_id),
                self@.email == old(self)@.email,
                self@.full_email == old(self)@.full_email,
                self@.sid == old(self)@.sid,
                self@.master_key == old(self)@.master_key,
                self@.password_aes == old(self)@.password_aes,
                self@.user_hash == old(self)@.user_hash,
                self@.account_version == old(self)@.account_version,
                self@.salt == old(self)@.salt,
            decreases nodes@.len() - i,
        {
            let t = match nodes[i].0 {
                Some(x) => x,
                None => -1,
            };
            let h = match &nodes[i].1 {
                Some(s) => Some(s.clone()),
                None => None,
            };
            if t == 2 {
                self.root_id = h;
            } else if t == 3 {
                self.inbox_id = h;
            } else if t == 4 {
                self.trashbin_id = h;
            }
            proof {
                let prev = nodes_view(nodes@.subrange(0, i as int));
                let next = nodes_view(nodes@.subrange(0, i + 1));
                assert(next.drop_last() =~= prev);
                assert(next.last() == (nodes@[i as int].0, opt_text(nodes@[i as int].1)));
            }
            i = i + 1;
        }
        assert(nodes@.subrange(0, nodes@.len() as int) =~= nodes@);
    }
}

// ---------------------------------------------------------------------------
// Request URLs
// ---------------------------------------------------------------------------

/// The API endpoint.
pub const API_URL: &'static str = "https://g.api.mega.co.nz";

/// The request URL with sequence number `seqno`: `API_URL/cs?id=seqno`.
pub open spec fn spec_plain_api_url(seqno: u64) -> Seq<char> {
    "https://g.api.mega.co.nz/cs?id="@ + decimal(seqno as nat)
}

fn decimal_text(n: u64) -> (r: String)
    ensures
        r@ == decimal(n as nat),
{
    let mut v: Vec<char> = Vec::new();
    push_decimal(&mut v, n);
    assert(v@ =~= decimal(n as nat));
    chars_to_string(v.as_slice())
}

/// The request URL with sequence number `seqno`.
pub fn plain_api_url(seqno: u64) -> (r: String)
    ensures
        r@ == spec_plain_api_url(seqno),
{
    let mut s = String::from_str("https://g.api.mega.co.nz/cs?id=");
    let n = decimal_text(seqno);
    s.append(n.as_str());
    s
}

/// The request URL for a node of a public folder: the plain URL and `&n=folder_id`.
pub fn folder_api_url(seqno: u64, folder_id: &str) -> (r: String)
    ensures
        r@ == spec_plain_api_url(seqno) + "&n="@ + folder_id@,
{
    let mut s = plain_api_url(seqno);
    s.append("&n=");
    s.append(folder_id);
    s
}

/// The session's id, where requests are to carry it and it has one.
pub open spec fn chosen_sid(include_sid: bool, session: Option<MegaSession>) -> Option<Seq<char>> {
    if include_sid {
        match session {
            Some(s) => opt_text(s.sid),
            None => None,
        }
    } else {
        None
    }
}

/// The request URL of the application: the plain URL, `&app=megabasterd`,
/// and `&sid=` with the session id where one is included.
pub fn build_api_url(seqno: u64, include_sid: bool, session: &Option<MegaSession>) -> (r: String)
    ensures
        r@ == spec_plain_api_url(seqno) + "&app=megabasterd"@ + (match chosen_sid(include_sid, *session) {
            Some(sid) => "&sid="@ + sid,
            None => Seq::empty(),
        }),
{
    let mut s = plain_api_url(seqno);
    s.append("&app=megabasterd");
    let ghost base = s@;
    if include_sid {
        if let Some(sess) = session {
            if let Some(sid) = &sess.sid {
                s.append("&sid=");
                s.append(sid.as_str());
                assert(s@ =~= base + ("&sid="@ + sid@));
                return s;
            }
        }
    }
    assert(s@ =~= base + Seq::<char>::empty());
    s
}

} // verus!
