//! Detection of MEGA links in free text.
//!
//! The link formats are matched as the patterns below describe them, with
//! the usual regular-expression reading (leftmost match, greedy runs,
//! successive matches not overlapping):
//!
//! * folder, new form: `https?://mega\.nz/folder/(ID)#(ID)(?:/file/(ID))?`
//! * folder, old form: `https?://mega\.nz/#F!(ID)!(ID)(?:!(ID))?`
//! * file, new form: `https?://mega\.nz/file/(ID)#(ID)`
//! * file, old form: `https?://mega\.nz/#!(ID)!(ID)`
//! * encrypted link: `mega://enc2?\?[A-Za-z0-9_=-]+`
//!
//! where `ID` is `[A-Za-z0-9_-]+`.

use vstd::prelude::*;
use vstd::slice::slice_subrange;
use crate::crypto::decrypt_mega_downloader_link;
use crate::text::{chars_to_string, matches_at, str_chars};
use vstd::string::StringExecFns;

verus! {

// ---------------------------------------------------------------------------
// Link types
// ---------------------------------------------------------------------------

/// A link found in text.
#[derive(Debug, Clone, PartialEq)]
pub enum MegaLink {
    /// Public file link: `mega.nz/file/ID#KEY` or `mega.nz/#!ID!KEY`.
    PublicFile { url: String, file_id: String, key: String },
    /// Public folder link: `mega.nz/folder/ID#KEY` or `mega.nz/#F!ID!KEY`.
    PublicFolder { url: String, folder_id: String, key: String },
    /// File inside a folder link: `mega.nz/folder/FID#KEY/file/NID`.
    FolderFile { url: String, folder_id: String, folder_key: String, file_node_id: String },
    /// MegaCrypter link.
    MegaCrypter { url: String },
    /// Encrypted `mega://enc` link.
    EncryptedLink { url: String },
}

/// A link taken by the text of its fields.
pub enum MegaLinkView {
    PublicFile { url: Seq<char>, file_id: Seq<char>, key: Seq<char> },
    PublicFolder { url: Seq<char>, folder_id: Seq<char>, key: Seq<char> },
    FolderFile { url: Seq<char>, folder_id: Seq<char>, folder_key: Seq<char>, file_node_id: Seq<char> },
    MegaCrypter { url: Seq<char> },
    EncryptedLink { url: Seq<char> },
}

impl View for MegaLink {
    type V = MegaLinkView;

    open spec fn view(&self) -> MegaLinkView {
        match self {
            MegaLink::PublicFile { url, file_id, key } =>
                MegaLinkView::PublicFile { url: url@, file_id: file_id@, key: key@ },
            MegaLink::PublicFolder { url, folder_id, key } =>
                MegaLinkView::PublicFolder { url: url@, folder_id: folder_id@, key: key@ },
            MegaLink::FolderFile { url, folder_id, folder_key, file_node_id } =>
                MegaLinkView::FolderFile {
                    url: url@,
                    folder_id: folder_id@,
                    folder_key: folder_key@,
                    file_node_id: file_node_id@,
                },
            MegaLink::MegaCrypter { url } => MegaLinkView::MegaCrypter { url: url@ },
            MegaLink::EncryptedLink { url } => MegaLinkView::EncryptedLink { url: url@ },
        }
    }
}

/// The URL of a link.
pub open spec fn view_url(l: MegaLinkView) -> Seq<char> {
    match l {
        MegaLinkView::PublicFile { url, .. } => url,
        MegaLinkView::PublicFolder { url, .. } => url,
        MegaLinkView::FolderFile { url, .. } => url,
        MegaLinkView::MegaCrypter { url } => url,
        MegaLinkView::EncryptedLink { url } => url,
    }
}

/// The views of a sequence of links.
pub open spec fn links_view(v: Seq<MegaLink>) -> Seq<MegaLinkView> {
    v.map_values(|l: MegaLink| l@)
}

// ---------------------------------------------------------------------------
// The link grammar
// ---------------------------------------------------------------------------

/// `[A-Za-z0-9_-]`
pub open spec fn is_id_char(c: char) -> bool {
    ('A' <= c <= 'Z') || ('a' <= c <= 'z') || ('0' <= c <= '9') || c == '_' || c == '-'
}

/// `[A-Za-z0-9_=-]`
pub open spec fn is_enc_char(c: char) -> bool {
    is_id_char(c) || c == '='
}

/// End of the longest run of ID characters starting at `i`.
pub open spec fn id_run_end(t: Seq<char>, i: int) -> int
    decreases t.len() - i,
{
    if 0 <= i < t.len() && is_id_char(t[i]) { id_run_end(t, i + 1) } else { i }
}

/// End of the longest run of encrypted-payload characters starting at `i`.
pub open spec fn enc_run_end(t: Seq<char>, i: int) -> int
    decreases t.len() - i,
{
    if 0 <= i < t.len() && is_enc_char(t[i]) { enc_run_end(t, i + 1) } else { i }
}

/// Whether `lit` occurs in `t` at position `i`.
pub open spec fn lit_at(t: Seq<char>, i: int, lit: Seq<char>) -> bool {
    0 <= i && i + lit.len() <= t.len() && t.subrange(i, i + lit.len()) == lit
}

/// `https://`
pub open spec fn https_lit() -> Seq<char> { seq!['h', 't', 't', 'p', 's', ':', '/', '/'] }
/// `http://`
pub open spec fn http_lit() -> Seq<char> { seq!['h', 't', 't', 'p', ':', '/', '/'] }
/// `mega.nz/folder/`
pub open spec fn folder_new_host() -> Seq<char> {
    seq!['m', 'e', 'g', 'a', '.', 'n', 'z', '/', 'f', 'o', 'l', 'd', 'e', 'r', '/']
}
/// `mega.nz/#F!`
pub open spec fn folder_old_host() -> Seq<char> { seq!['m', 'e', 'g', 'a', '.', 'n', 'z', '/', '#', 'F', '!'] }
/// `mega.nz/file/`
pub open spec fn file_new_host() -> Seq<char> {
    seq!['m', 'e', 'g', 'a', '.', 'n', 'z', '/', 'f', 'i', 'l', 'e', '/']
}
/// `mega.nz/#!`
pub open spec fn file_old_host() -> Seq<char> { seq!['m', 'e', 'g', 'a', '.', 'n', 'z', '/', '#', '!'] }
/// `/file/`
pub open spec fn folder_new_tail() -> Seq<char> { seq!['/', 'f', 'i', 'l', 'e', '/'] }
/// `!`
pub open spec fn folder_old_tail() -> Seq<char> { seq!['!'] }
/// `mega://enc`
pub open spec fn enc_prefix() -> Seq<char> { seq!['m', 'e', 'g', 'a', ':', '/', '/', 'e', 'n', 'c'] }

/// Where `https?://` ends when it occurs at `i`.
pub open spec fn scheme_end(t: Seq<char>, i: int) -> Option<int> {
    if lit_at(t, i, https_lit()) {
        Some(i + 8)
    } else if lit_at(t, i, http_lit()) {
        Some(i + 7)
    } else {
        None
    }
}

/// A half-open range of positions in the text.
#[derive(Clone, Copy)]
pub struct Span {
    pub start: usize,
    pub end: usize,
}

/// A link match: where it ends and where its ID groups are.
#[derive(Clone, Copy)]
pub struct LinkMatch {
    pub end: usize,
    pub id: Span,
    pub key: Span,
    pub node: Option<Span>,
}

/// A span from positions in the text.
pub open spec fn span(start: int, end: int) -> Span {
    Span { start: start as usize, end: end as usize }
}

/// The match at `i` of `https?://HOST(ID)SEP(ID)` optionally followed by
/// `TAIL(ID)` (when `tail` is not empty).
pub open spec fn spec_match_link(t: Seq<char>, i: int, host: Seq<char>, sep: char, tail: Seq<char>) -> Option<LinkMatch> {
    match scheme_end(t, i) {
        None => None,
        Some(e) => {
            if !lit_at(t, e, host) {
                None
            } else {
                let p = e + host.len();
                let q = id_run_end(t, p);
                if q == p || q >= t.len() || t[q] != sep {
                    None
                } else {
                    let r = id_run_end(t, q + 1);
                    if r == q + 1 {
                        None
                    } else {
                        let n = r + tail.len();
                        if tail.len() > 0 && lit_at(t, r, tail) && id_run_end(t, n) > n {
                            let s = id_run_end(t, n);
                            Some(LinkMatch { end: s as usize, id: span(p, q), key: span(q + 1, r), node: Some(span(n, s)) })
                        } else {
                            Some(LinkMatch { end: r as usize, id: span(p, q), key: span(q + 1, r), node: None })
                        }
                    }
                }
            }
        },
    }
}

/// The match at `i` of the encrypted-link pattern.
pub open spec fn spec_match_enc(t: Seq<char>, i: int) -> Option<LinkMatch> {
    if !lit_at(t, i, enc_prefix()) {
        None
    } else {
        let k = i + 10;
        let start = if k + 1 < t.len() && t[k] == '2' && t[k + 1] == '?' {
            k + 2
        } else if k < t.len() && t[k] == '?' {
            k + 1
        } else {
            -1
        };
        if start < 0 || enc_run_end(t, start) == start {
            None
        } else {
            let e = enc_run_end(t, start);
            Some(LinkMatch { end: e as usize, id: span(start, e), key: span(start, e), node: None })
        }
    }
}

/// The kinds of link, in the order in which they are searched for.
pub open spec fn spec_match_kind(kind: int, t: Seq<char>, i: int) -> Option<LinkMatch> {
    if kind == 0 {
        spec_match_link(t, i, folder_new_host(), '#', folder_new_tail())
    } else if kind == 1 {
        spec_match_link(t, i, folder_old_host(), '!', folder_old_tail())
    } else if kind == 2 {
        spec_match_link(t, i, file_new_host(), '#', Seq::empty())
    } else if kind == 3 {
        spec_match_link(t, i, file_old_host(), '!', Seq::empty())
    } else {
        spec_match_enc(t, i)
    }
}

/// The successive non-overlapping matches of a kind, searching from `pos`:
/// each as its start and its match.
pub open spec fn spec_scan(kind: int, t: Seq<char>, pos: int) -> Seq<(int, LinkMatch)>
    decreases t.len() + 1 - pos,
{
    if pos < 0 || pos > t.len() {
        Seq::empty()
    } else {
        match spec_match_kind(kind, t, pos) {
            Some(m) => if pos < m.end <= t.len() {
                seq![(pos, m)] + spec_scan(kind, t, m.end as int)
            } else {
                spec_scan(kind, t, pos + 1)
            },
            None => spec_scan(kind, t, pos + 1),
        }
    }
}

/// The text of a span.
pub open spec fn span_text(t: Seq<char>, s: Span) -> Seq<char> {
    t.subrange(s.start as int, s.end as int)
}

/// The link that a match of a kind stands for.
pub open spec fn match_link(kind: int, t: Seq<char>, start: int, m: LinkMatch) -> MegaLinkView {
    let url = t.subrange(start, m.end as int);
    if kind == 0 || kind == 1 {
        match m.node {
            Some(n) => MegaLinkView::FolderFile {
                url,
                folder_id: span_text(t, m.id),
                folder_key: span_text(t, m.key),
                file_node_id: span_text(t, n),
            },
            None => MegaLinkView::PublicFolder { url, folder_id: span_text(t, m.id), key: span_text(t, m.key) },
        }
    } else if kind == 2 || kind == 3 {
        MegaLinkView::PublicFile { url, file_id: span_text(t, m.id), key: span_text(t, m.key) }
    } else {
        MegaLinkView::EncryptedLink { url }
    }
}

/// The links of one kind found in the text, in order.
pub open spec fn links_of_kind(kind: int, t: Seq<char>) -> Seq<MegaLinkView> {
    spec_scan(kind, t, 0).map_values(|p: (int, LinkMatch)| match_link(kind, t, p.0, p.1))
}

/// Consecutive links with the same URL collapsed to the first of them.
pub open spec fn dedup_by_url(s: Seq<MegaLinkView>) -> Seq<MegaLinkView>
    decreases s.len(),
{
    if s.len() == 0 {
        s
    } else {
        let d = dedup_by_url(s.drop_last());
        if d.len() > 0 && view_url(d.last()) == view_url(s.last()) { d } else { d.push(s.last()) }
    }
}

/// All links found in the text: folder links (new, then old form), file
/// links (new, then old form), then encrypted links, consecutive duplicates
/// by URL removed.
pub open spec fn spec_detect(t: Seq<char>) -> Seq<MegaLinkView> {
    dedup_by_url(
        links_of_kind(0, t) + links_of_kind(1, t) + links_of_kind(2, t) + links_of_kind(3, t)
            + links_of_kind(4, t),
    )
}

// ---------------------------------------------------------------------------
// Matching
// ---------------------------------------------------------------------------

fn is_id_char_exec(c: char) -> (r: bool)
    ensures
        r == is_id_char(c),
{
    ('A' <= c && c <= 'Z') || ('a' <= c && c <= 'z') || ('0' <= c && c <= '9') || c == '_' || c == '-'
}

fn id_run_end_exec(t: &[char], i: usize) -> (r: usize)
    requires
        i <= t@.len(),
    ensures
        r == id_run_end(t@, i as int),
        i <= r <= t@.len(),
{
    let mut j = i;
    while j < t.len() && is_id_char_exec(t[j])
        invariant
            i <= j <= t@.len(),
            id_run_end(t@, j as int) == id_run_end(t@, i as int),
        decreases t@.len() - j,
    {
        j = j + 1;
    }
    j
}

fn enc_run_end_exec(t: &[char], i: usize) -> (r: usize)
    requires
        i <= t@.len(),
    ensures
        r == enc_run_end(t@, i as int),
        i <= r <= t@.len(),
{
    let mut j = i;
    while j < t.len() && (is_id_char_exec(t[j]) || t[j] == '=')
        invariant
            i <= j <= t@.len(),
            enc_run_end(t@, j as int) == enc_run_end(t@, i as int),
        decreases t@.len() - j,
    {
        j = j + 1;
    }
    j
}

fn scheme_end_exec(t: &[char], i: usize) -> (r: Option<usize>)
    requires
        i <= t@.len(),
    ensures
        r matches Some(e) ==> scheme_end(t@, i as int) == Some(e as int) && e <= t@.len(),
        r is None ==> scheme_end(t@, i as int) is None,
{
    let https: Vec<char> = vec!['h', 't', 't', 'p', 's', ':', '/', '/'];
    let http: Vec<char> = vec!['h', 't', 't', 'p', ':', '/', '/'];
    assert(https@ =~= https_lit());
    assert(http@ =~= http_lit());
    let tlen = t.len();
    assert(t@.len() == tlen);
    if matches_at(t, https.as_slice(), i) {
        Some(i + 8)
    } else if matches_at(t, http.as_slice(), i) {
        Some(i + 7)
    } else {
        None
    }
}

fn match_link_at(t: &[char], i: usize, host: &[char], sep: char, tail: &[char]) -> (r: Option<LinkMatch>)
    requires
        i <= t@.len(),
    ensures
        r == spec_match_link(t@, i as int, host@, sep, tail@),
        r matches Some(m) ==> i < m.end <= t@.len(),
{
    match scheme_end_exec(t, i) {
        None => None,
        Some(e) => {
            let tlen = t.len();
            assert(t@.len() == tlen);
            if !matches_at(t, host, e) {
                return None;
            }
            let p = e + host.len();
            let q = id_run_end_exec(t, p);
            if q == p || q >= t.len() || t[q] != sep {
                return None;
            }
            let r = id_run_end_exec(t, q + 1);
            if r == q + 1 {
                return None;
            }
            if tail.len() > 0 && matches_at(t, tail, r) {
                let n = r + tail.len();
                let s = id_run_end_exec(t, n);
                if s > n {
                    return Some(LinkMatch {
                        end: s,
                        id: Span { start: p, end: q },
                        key: Span { start: q + 1, end: r },
                        node: Some(Span { start: n, end: s }),
                    });
                }
            }
            Some(LinkMatch { end: r, id: Span { start: p, end: q }, key: Span { start: q + 1, end: r }, node: None })
        },
    }
}

fn match_enc(t: &[char], i: usize) -> (r: Option<LinkMatch>)
    requires
        i <= t@.len(),
    ensures
        r == spec_match_enc(t@, i as int),
        r matches Some(m) ==> i < m.end <= t@.len(),
{
    let prefix: Vec<char> = vec!['m', 'e', 'g', 'a', ':', '/', '/', 'e', 'n', 'c'];
    assert(prefix@ =~= enc_prefix());
    let tlen = t.len();
    assert(t@.len() == tlen);
    if !matches_at(t, prefix.as_slice(), i) {
        return None;
    }
    let k = i + 10;
    let start = if tlen - k >= 2 && t[k] == '2' && t[k + 1] == '?' {
        k + 2
    } else if k < t.len() && t[k] == '?' {
        k + 1
    } else {
        return None;
    };
    let e = enc_run_end_exec(t, start);
    if e == start {
        return None;
    }
    Some(LinkMatch { end: e, id: Span { start, end: e }, key: Span { start, end: e }, node: None })
}

/// The match of a kind at position `i`.
fn match_kind(kind: u8, t: &[char], i: usize) -> (r: Option<LinkMatch>)
    requires
        i <= t@.len(),
    ensures
        r == spec_match_kind(kind as int, t@, i as int),
        r matches Some(m) ==> i < m.end <= t@.len(),
{
    if kind == 0 {
        let host: Vec<char> = vec!['m', 'e', 'g', 'a', '.', 'n', 'z', '/', 'f', 'o', 'l', 'd', 'e', 'r', '/'];
        let tail: Vec<char> = vec!['/', 'f', 'i', 'l', 'e', '/'];
        assert(host@ =~= folder_new_host());
        assert(tail@ =~= folder_new_tail());
        match_link_at(t, i, host.as_slice(), '#', tail.as_slice())
    } else if kind == 1 {
        let host: Vec<char> = vec!['m', 'e', 'g', 'a', '.', 'n', 'z', '/', '#', 'F', '!'];
        let tail: Vec<char> = vec!['!'];
        assert(host@ =~= folder_old_host());
        assert(tail@ =~= folder_old_tail());
        match_link_at(t, i, host.as_slice(), '!', tail.as_slice())
    } else if kind == 2 {
        let host: Vec<char> = vec!['m', 'e', 'g', 'a', '.', 'n', 'z', '/', 'f', 'i', 'l', 'e', '/'];
        let tail: Vec<char> = Vec::new();
        assert(host@ =~= file_new_host());
        assert(tail@ =~= Seq::<char>::empty());
        match_link_at(t, i, host.as_slice(), '#', tail.as_slice())
    } else if kind == 3 {
        let host: Vec<char> = vec!['m', 'e', 'g', 'a', '.', 'n', 'z', '/', '#', '!'];
        let tail: Vec<char> = Vec::new();
        assert(host@ =~= file_old_host());
        assert(tail@ =~= Seq::<char>::empty());
        match_link_at(t, i, host.as_slice(), '!', tail.as_slice())
    } else {
        match_enc(t, i)
    }
}


/// The links that a list of matches of a kind stand for.
pub open spec fn match_links(kind: int, t: Seq<char>, acc: Seq<(int, LinkMatch)>) -> Seq<MegaLinkView> {
    acc.map_values(|p: (int, LinkMatch)| match_link(kind, t, p.0, p.1))
}

proof fn lemma_match_links_push(kind: int, t: Seq<char>, acc: Seq<(int, LinkMatch)>, x: (int, LinkMatch))
    ensures
        match_links(kind, t, acc.push(x)) == match_links(kind, t, acc).push(match_link(kind, t, x.0, x.1)),
{
    assert(match_links(kind, t, acc.push(x)) =~= match_links(kind, t, acc).push(match_link(kind, t, x.0, x.1)));
}

proof fn lemma_links_view_push(v: Seq<MegaLink>, x: MegaLink)
    ensures
        links_view(v.push(x)) == links_view(v).push(x@),
{
    assert(links_view(v.push(x)) =~= links_view(v).push(x@));
}

/// The link for a match of a kind starting at `start`.
fn build_link(kind: u8, t: &[char], start: usize, m: LinkMatch) -> (r: MegaLink)
    requires
        start < m.end <= t@.len(),
        m.id.start <= m.id.end <= t@.len(),
        m.key.start <= m.key.end <= t@.len(),
        m.node matches Some(n) ==> n.start <= n.end <= t@.len(),
    ensures
        r@ == match_link(kind as int, t@, start as int, m),
{
    let url = chars_to_string(slice_subrange(t, start, m.end));
    if kind == 0 || kind == 1 {
        let id = chars_to_string(slice_subrange(t, m.id.start, m.id.end));
        let key = chars_to_string(slice_subrange(t, m.key.start, m.key.end));
        match m.node {
            Some(n) => {
                let node = chars_to_string(slice_subrange(t, n.start, n.end));
                MegaLink::FolderFile { url, folder_id: id, folder_key: key, file_node_id: node }
            },
            None => MegaLink::PublicFolder { url, folder_id: id, key },
        }
    } else if kind == 2 || kind == 3 {
        let id = chars_to_string(slice_subrange(t, m.id.start, m.id.end));
        let key = chars_to_string(slice_subrange(t, m.key.start, m.key.end));
        MegaLink::PublicFile { url, file_id: id, key }
    } else {
        MegaLink::EncryptedLink { url }
    }
}

proof fn lemma_match_spans(kind: int, t: Seq<char>, i: int)
    requires
        0 <= i <= t.len(),
        t.len() <= usize::MAX,
        spec_match_kind(kind, t, i) is Some,
    ensures
        ({
            let m = spec_match_kind(kind, t, i)->0;
            &&& m.id.start <= m.id.end <= t.len()
            &&& m.key.start <= m.key.end <= t.len()
            &&& (m.node matches Some(n) ==> n.start <= n.end <= t.len())
        }),
{
    lemma_run_ends_bounded(t);
}

proof fn lemma_run_ends_bounded(t: Seq<char>)
    ensures
        forall|i: int| 0 <= i <= t.len() ==> i <= #[trigger] id_run_end(t, i) <= t.len(),
        forall|i: int| 0 <= i <= t.len() ==> i <= #[trigger] enc_run_end(t, i) <= t.len(),
{
    assert forall|i: int| 0 <= i <= t.len() implies i <= #[trigger] id_run_end(t, i) <= t.len() by {
        lemma_id_run_end_bounded(t, i);
    }
    assert forall|i: int| 0 <= i <= t.len() implies i <= #[trigger] enc_run_end(t, i) <= t.len() by {
        lemma_enc_run_end_bounded(t, i);
    }
}

proof fn lemma_id_run_end_bounded(t: Seq<char>, i: int)
    requires
        0 <= i <= t.len(),
    ensures
        i <= id_run_end(t, i) <= t.len(),
    decreases t.len() - i,
{
    if i < t.len() && is_id_char(t[i]) {
        lemma_id_run_end_bounded(t, i + 1);
    }
}

proof fn lemma_enc_run_end_bounded(t: Seq<char>, i: int)
    requires
        0 <= i <= t.len(),
    ensures
        i <= enc_run_end(t, i) <= t.len(),
    decreases t.len() - i,
{
    if i < t.len() && is_enc_char(t[i]) {
        lemma_enc_run_end_bounded(t, i + 1);
    }
}

/// Appends the links of one kind found in `t`, in order.
#[verifier::rlimit(80)]
#[verifier::spinoff_prover]
fn append_links_of_kind(kind: u8, t: &[char], out: &mut Vec<MegaLink>)
    ensures
        links_view(final(out)@) == links_view(old(out)@) + links_of_kind(kind as int, t@),
{
    let tlen = t.len();
    let ghost before = links_view(out@);
    let ghost mut acc: Seq<(int, LinkMatch)> = Seq::empty();
    let mut pos: usize = 0;
    assert(spec_scan(kind as int, t@, 0) =~= acc + spec_scan(kind as int, t@, 0));
    loop
        invariant
            tlen == t@.len(),
            pos <= tlen,
            spec_scan(kind as int, t@, 0) == acc + spec_scan(kind as int, t@, pos as int),
            links_view(out@) == before + match_links(kind as int, t@, acc),
        ensures
            spec_scan(kind as int, t@, 0) == acc,
            links_view(out@) == before + match_links(kind as int, t@, acc),
        decreases tlen - pos,
    {
        match match_kind(kind, t, pos) {
            Some(m) => {
                proof {
                    lemma_match_spans(kind as int, t@, pos as int);
                }
                let link = build_link(kind, t, pos, m);
                let ghost prev_out = out@;
                let ghost link_view = link@;
                out.push(link);
                proof {
                    lemma_links_view_push(prev_out, link);
                    lemma_match_links_push(kind as int, t@, acc, (pos as int, m));
                    let old_acc = acc;
                    acc = acc.push((pos as int, m));
                    assert(spec_scan(kind as int, t@, pos as int) == seq![(pos as int, m)] + spec_scan(kind as int, t@, m.end as int));
                    assert(old_acc + (seq![(pos as int, m)] + spec_scan(kind as int, t@, m.end as int))
                        =~= acc + spec_scan(kind as int, t@, m.end as int));
                    assert(links_view(out@) =~= before + match_links(kind as int, t@, acc));
                }
                pos = m.end;
            },
            None => {
                if pos == tlen {
                    proof {
                        assert(spec_scan(kind as int, t@, pos as int) == spec_scan(kind as int, t@, pos + 1));
                        assert(spec_scan(kind as int, t@, pos + 1) =~= Seq::<(int, LinkMatch)>::empty());
                        assert(acc + spec_scan(kind as int, t@, pos as int) =~= acc);
                    }
                    break;
                }
                pos = pos + 1;
            },
        }
    }
    proof {
        assert(match_links(kind as int, t@, acc) =~= links_of_kind(kind as int, t@));
    }
}

/// The URL of a link.
fn link_url(link: &MegaLink) -> (r: &String)
    ensures
        r@ == view_url(link@),
{
    match link {
        MegaLink::PublicFile { url, .. } => url,
        MegaLink::PublicFolder { url, .. } => url,
        MegaLink::FolderFile { url, .. } => url,
        MegaLink::MegaCrypter { url } => url,
        MegaLink::EncryptedLink { url } => url,
    }
}

/// Removes all but the first of each run of consecutive links with the same URL.
fn dedup_links(all: Vec<MegaLink>) -> (r: Vec<MegaLink>)
    ensures
        links_view(r@) == dedup_by_url(links_view(all@)),
{
    let ghost orig = links_view(all@);
    let mut rest = all;
    let mut out: Vec<MegaLink> = Vec::new();
    let ghost mut done: nat = 0;
    assert(orig.subrange(0, 0) =~= Seq::<MegaLinkView>::empty());
    while rest.len() > 0
        invariant
            done + rest@.len() == orig.len(),
            links_view(rest@) == orig.subrange(done as int, orig.len() as int),
            links_view(out@) == dedup_by_url(orig.subrange(0, done as int)),
        decreases rest@.len(),
    {
        let ghost old_rest = rest@;
        let x = rest.remove(0);
        proof {
            assert(x == old_rest[0]);
            assert(links_view(old_rest)[0] == old_rest[0]@);
            assert(orig.subrange(done as int, orig.len() as int)[0] == orig[done as int]);
            assert(x@ == orig[done as int]);
            assert(rest@ =~= old_rest.subrange(1, old_rest.len() as int));
            assert(links_view(rest@) =~= links_view(old_rest).subrange(1, old_rest.len() as int));
            assert(orig.subrange((done + 1) as int, orig.len() as int) =~= orig.subrange(done as int, orig.len() as int).subrange(1, old_rest.len() as int));
            let pre = orig.subrange(0, (done + 1) as int);
            assert(pre.drop_last() =~= orig.subrange(0, done as int));
            assert(pre.last() == x@);
        }
        let keep = if out.len() == 0 {
            true
        } else {
            let last_idx = out.len() - 1;
            let same = *link_url(&out[last_idx]) == *link_url(&x);
            !same
        };
        if keep {
            out.push(x);
        }
        proof {
            done = done + 1;
            assert(links_view(rest@) =~= orig.subrange(done as int, orig.len() as int));
            assert(links_view(out@) =~= dedup_by_url(orig.subrange(0, done as int)));
        }
    }
    assert(orig.subrange(0, done as int) =~= orig);
    out
}

// ---------------------------------------------------------------------------
// Detection
// ---------------------------------------------------------------------------

/// Finds all MEGA links in a block of text.
pub fn detect_mega_links(text: &str) -> (r: Vec<MegaLink>)
    ensures
        links_view(r@) == spec_detect(text@),
{
    let t = str_chars(text);
    let mut all: Vec<MegaLink> = Vec::new();
    append_links_of_kind(0, t.as_slice(), &mut all);
    append_links_of_kind(1, t.as_slice(), &mut all);
    append_links_of_kind(2, t.as_slice(), &mut all);
    append_links_of_kind(3, t.as_slice(), &mut all);
    append_links_of_kind(4, t.as_slice(), &mut all);
    assert(links_view(all@) =~= links_of_kind(0, t@) + links_of_kind(1, t@) + links_of_kind(2, t@)
        + links_of_kind(3, t@) + links_of_kind(4, t@));
    dedup_links(all)
}

/// Whether some link of a kind occurs in `t`.
fn has_link_of_kind(kind: u8, t: &[char]) -> (r: bool)
    ensures
        r == (spec_scan(kind as int, t@, 0).len() > 0),
{
    let tlen = t.len();
    let mut pos: usize = 0;
    loop
        invariant
            tlen == t@.len(),
            pos <= tlen,
            spec_scan(kind as int, t@, 0) == spec_scan(kind as int, t@, pos as int),
        decreases tlen - pos,
    {
        match match_kind(kind, t, pos) {
            Some(m) => {
                assert(spec_scan(kind as int, t@, pos as int) == seq![(pos as int, m)] + spec_scan(kind as int, t@, m.end as int));
                return true;
            },
            None => {
                if pos == tlen {
                    assert(spec_scan(kind as int, t@, pos + 1) =~= Seq::<(int, LinkMatch)>::empty());
                    return false;
                }
                pos = pos + 1;
            },
        }
    }
}

/// Whether some link of the five searched kinds occurs in the text.
pub open spec fn spec_is_mega_link(t: Seq<char>) -> bool {
    exists|kind: int| 0 <= kind < 5 && #[trigger] spec_scan(kind, t, 0).len() > 0
}

/// Whether the text holds at least one MEGA link (file, folder or encrypted).
pub fn is_mega_link(text: &str) -> (r: bool)
    ensures
        r == spec_is_mega_link(text@),
{
    let t = str_chars(text);
    let a = has_link_of_kind(0, t.as_slice());
    let b = has_link_of_kind(1, t.as_slice());
    let c = has_link_of_kind(2, t.as_slice());
    let d = has_link_of_kind(3, t.as_slice());
    let e = has_link_of_kind(4, t.as_slice());
    proof {
        if a || b || c || d || e {
        } else {
            assert forall|kind: int| 0 <= kind < 5 implies !(#[trigger] spec_scan(kind, t@, 0).len() > 0) by {
                if kind == 0 {} else if kind == 1 {} else if kind == 2 {} else if kind == 3 {} else {}
            }
        }
    }
    a || b || c || d || e
}

/// The links recovered from an encrypted link: its decrypted text must hold
/// at least one link.
pub open spec fn spec_try_decrypt(link: MegaLinkView) -> Option<Seq<MegaLinkView>> {
    match link {
        MegaLinkView::EncryptedLink { url } => match crate::crypto::downloader_link_text(url) {
            Some(d) => if spec_detect(d).len() > 0 { Some(spec_detect(d)) } else { None },
            None => None,
        },
        _ => None,
    }
}

/// Decrypts an encrypted `mega://` link and returns the links it wraps.
pub fn try_decrypt_encrypted_link(link: &MegaLink) -> (r: Option<Vec<MegaLink>>)
    ensures
        r is Some <==> spec_try_decrypt(link@) is Some,
        r matches Some(v) ==> spec_try_decrypt(link@) == Some(links_view(v@)),
{
    if let MegaLink::EncryptedLink { url } = link {
        match decrypt_mega_downloader_link(url.as_str()) {
            Ok(decrypted) => {
                let links = detect_mega_links(decrypted.as_str());
                if links.len() > 0 {
                    return Some(links);
                }
            },
            Err(_) => {},
        }
    }
    None
}


// ---------------------------------------------------------------------------
// Laws of detection
// ---------------------------------------------------------------------------

proof fn lemma_dedup_len(s: Seq<MegaLinkView>)
    ensures
        s.len() > 0 <==> dedup_by_url(s).len() > 0,
        dedup_by_url(s).len() <= s.len(),
    decreases s.len(),
{
    if s.len() > 0 {
        lemma_dedup_len(s.drop_last());
    }
}

proof fn lemma_dedup_no_adjacent_duplicates(s: Seq<MegaLinkView>)
    ensures
        forall|i: int| 0 <= i < dedup_by_url(s).len() - 1 ==>
            view_url(#[trigger] dedup_by_url(s)[i]) != view_url(dedup_by_url(s)[i + 1]),
    decreases s.len(),
{
    if s.len() > 0 {
        lemma_dedup_no_adjacent_duplicates(s.drop_last());
        let d = dedup_by_url(s.drop_last());
        assert forall|i: int| 0 <= i < dedup_by_url(s).len() - 1 implies
            view_url(#[trigger] dedup_by_url(s)[i]) != view_url(dedup_by_url(s)[i + 1]) by {
            if i < d.len() - 1 {
                assert(dedup_by_url(s)[i] == d[i]);
                assert(dedup_by_url(s)[i + 1] == d[i + 1]);
            }
        }
    }
}

/// No two neighbouring links in the detected list have the same URL.
pub proof fn lemma_detect_no_adjacent_duplicates(t: Seq<char>)
    ensures
        forall|i: int| 0 <= i < spec_detect(t).len() - 1 ==>
            view_url(#[trigger] spec_detect(t)[i]) != view_url(spec_detect(t)[i + 1]),
{
    lemma_dedup_no_adjacent_duplicates(
        links_of_kind(0, t) + links_of_kind(1, t) + links_of_kind(2, t) + links_of_kind(3, t) + links_of_kind(4, t));
}

/// Text holds a MEGA link exactly when detection finds at least one.
pub proof fn lemma_is_mega_link_iff_detected(t: Seq<char>)
    ensures
        spec_is_mega_link(t) <==> spec_detect(t).len() > 0,
{
    let all = links_of_kind(0, t) + links_of_kind(1, t) + links_of_kind(2, t) + links_of_kind(3, t) + links_of_kind(4, t);
    lemma_dedup_len(all);
    assert(all.len() == links_of_kind(0, t).len() + links_of_kind(1, t).len() + links_of_kind(2, t).len()
        + links_of_kind(3, t).len() + links_of_kind(4, t).len());
    if spec_is_mega_link(t) {
        let kind = choose|kind: int| 0 <= kind < 5 && #[trigger] spec_scan(kind, t, 0).len() > 0;
        assert(links_of_kind(kind, t).len() == spec_scan(kind, t, 0).len());
    } else {
        assert(spec_scan(0, t, 0).len() == 0);
        assert(spec_scan(1, t, 0).len() == 0);
        assert(spec_scan(2, t, 0).len() == 0);
        assert(spec_scan(3, t, 0).len() == 0);
        assert(spec_scan(4, t, 0).len() == 0);
    }
}

/// Whether `u` is a piece of `t`.
pub open spec fn in_text(u: Seq<char>, t: Seq<char>) -> bool {
    exists|a: int, b: int| 0 <= a <= b <= t.len() && u == t.subrange(a, b)
}

/// Every detected link's URL is a piece of the text.
pub proof fn lemma_detected_urls_in_text(t: Seq<char>)
    ensures
        forall|i: int| 0 <= i < spec_detect(t).len() ==>
            in_text(view_url(#[trigger] spec_detect(t)[i]), t),
{
    let all = links_of_kind(0, t) + links_of_kind(1, t) + links_of_kind(2, t) + links_of_kind(3, t) + links_of_kind(4, t);
    assert forall|j: int| 0 <= j < all.len() implies
        in_text(view_url(#[trigger] all[j]), t) by {
        lemma_all_links_in_text(t, j);
    }
    lemma_dedup_subset(all, t);
}

proof fn lemma_scan_in_text(kind: int, t: Seq<char>, pos: int)
    ensures
        forall|j: int| 0 <= j < spec_scan(kind, t, pos).len() ==>
            0 <= (#[trigger] spec_scan(kind, t, pos)[j]).0 < spec_scan(kind, t, pos)[j].1.end <= t.len(),
    decreases t.len() + 1 - pos,
{
    if pos < 0 || pos > t.len() {
    } else {
        match spec_match_kind(kind, t, pos) {
            Some(m) => if pos < m.end <= t.len() {
                lemma_scan_in_text(kind, t, m.end as int);
                let rest = spec_scan(kind, t, m.end as int);
                assert forall|j: int| 0 <= j < spec_scan(kind, t, pos).len() implies
                    0 <= (#[trigger] spec_scan(kind, t, pos)[j]).0 < spec_scan(kind, t, pos)[j].1.end <= t.len() by {
                    if j > 0 {
                        assert(spec_scan(kind, t, pos)[j] == rest[j - 1]);
                    }
                }
            } else {
                lemma_scan_in_text(kind, t, pos + 1);
            },
            None => lemma_scan_in_text(kind, t, pos + 1),
        }
    }
}

/// Whether a link of a kind matches the text at `i`, within the text.
pub open spec fn match_in_text(kind: int, t: Seq<char>, i: int) -> bool {
    spec_match_kind(kind, t, i) matches Some(m) && i < m.end <= t.len()
}

#[verifier::rlimit(50)]
proof fn lemma_scan_complete(kind: int, t: Seq<char>, pos: int)
    requires
        0 <= pos,
    ensures
        forall|j: int| 0 <= j < spec_scan(kind, t, pos).len() ==>
            pos <= (#[trigger] spec_scan(kind, t, pos)[j]).0
            && spec_match_kind(kind, t, spec_scan(kind, t, pos)[j].0) == Some(spec_scan(kind, t, pos)[j].1),
        forall|j: int, k: int| 0 <= j < k < spec_scan(kind, t, pos).len() ==>
            (#[trigger] spec_scan(kind, t, pos)[j]).1.end <= (#[trigger] spec_scan(kind, t, pos)[k]).0,
        forall|i: int| pos <= i <= t.len() && #[trigger] match_in_text(kind, t, i) ==> exists|j: int|
            0 <= j < spec_scan(kind, t, pos).len() && ({
                let e = #[trigger] spec_scan(kind, t, pos)[j];
                (e.0 == i && Some(e.1) == spec_match_kind(kind, t, i)) || (e.0 < i < e.1.end)
            }),
    decreases t.len() + 1 - pos,
{
    let sc = spec_scan(kind, t, pos);
    if pos > t.len() {
    } else {
        match spec_match_kind(kind, t, pos) {
            Some(m) => if pos < m.end <= t.len() {
                let next = m.end as int;
                lemma_scan_complete(kind, t, next);
                lemma_scan_in_text(kind, t, next);
                let rest = spec_scan(kind, t, next);
                assert(sc == seq![(pos, m)] + rest);
                assert forall|j: int| 0 <= j < sc.len() implies
                    pos <= (#[trigger] sc[j]).0 && spec_match_kind(kind, t, sc[j].0) == Some(sc[j].1) by {
                    if j > 0 {
                        assert(sc[j] == rest[j - 1]);
                    }
                }
                assert forall|j: int, k: int| 0 <= j < k < sc.len() implies
                    (#[trigger] sc[j]).1.end <= (#[trigger] sc[k]).0 by {
                    assert(sc[k] == rest[k - 1]);
                    if j > 0 {
                        assert(sc[j] == rest[j - 1]);
                    } else {
                        assert(next <= rest[k - 1].0);
                    }
                }
                assert forall|i: int| pos <= i <= t.len() && #[trigger] match_in_text(kind, t, i) implies exists|j: int|
                    0 <= j < sc.len() && ({
                        let e = #[trigger] sc[j];
                        (e.0 == i && Some(e.1) == spec_match_kind(kind, t, i)) || (e.0 < i < e.1.end)
                    }) by {
                    if i < next {
                        assert(sc[0] == (pos, m));
                    } else {
                        let j2 = choose|j: int| 0 <= j < rest.len() && ({
                            let e = #[trigger] rest[j];
                            (e.0 == i && Some(e.1) == spec_match_kind(kind, t, i)) || (e.0 < i < e.1.end)
                        });
                        assert(sc[j2 + 1] == rest[j2]);
                    }
                }
            } else {
                lemma_scan_complete(kind, t, pos + 1);
                assert(sc == spec_scan(kind, t, pos + 1));
            },
            None => {
                lemma_scan_complete(kind, t, pos + 1);
                assert(sc == spec_scan(kind, t, pos + 1));
            },
        }
    }
}

/// Every link of a kind in the text is found: wherever a link of the kind
/// starts in the text, either a found link of that kind starts there (with
/// that match, so its URL is the matched text), or the position lies inside
/// an earlier found link. Each found link is a match of the kind where it
/// starts, and the found links follow one another without overlapping.
pub proof fn lemma_links_of_kind_complete(kind: int, t: Seq<char>)
    ensures
        links_of_kind(kind, t).len() == spec_scan(kind, t, 0).len(),
        forall|j: int| 0 <= j < spec_scan(kind, t, 0).len() ==>
            #[trigger] links_of_kind(kind, t)[j] == match_link(kind, t, spec_scan(kind, t, 0)[j].0, spec_scan(kind, t, 0)[j].1)
            && match_in_text(kind, t, spec_scan(kind, t, 0)[j].0)
            && spec_match_kind(kind, t, spec_scan(kind, t, 0)[j].0) == Some(spec_scan(kind, t, 0)[j].1),
        forall|j: int, k: int| 0 <= j < k < spec_scan(kind, t, 0).len() ==>
            (#[trigger] spec_scan(kind, t, 0)[j]).1.end <= (#[trigger] spec_scan(kind, t, 0)[k]).0,
        forall|i: int| 0 <= i <= t.len() && #[trigger] match_in_text(kind, t, i) ==> exists|j: int|
            0 <= j < spec_scan(kind, t, 0).len() && ({
                let e = #[trigger] spec_scan(kind, t, 0)[j];
                (e.0 == i && Some(e.1) == spec_match_kind(kind, t, i)) || (e.0 < i < e.1.end)
            }),
{
    lemma_scan_complete(kind, t, 0);
    lemma_scan_in_text(kind, t, 0);
}

proof fn lemma_kind_links_in_text(kind: int, t: Seq<char>, j: int)
    requires
        0 <= j < links_of_kind(kind, t).len(),
    ensures
        in_text(view_url(links_of_kind(kind, t)[j]), t),
{
    lemma_scan_in_text(kind, t, 0);
    let p = spec_scan(kind, t, 0)[j];
    assert(0 <= p.0 < p.1.end <= t.len());
    assert(view_url(links_of_kind(kind, t)[j]) == t.subrange(p.0, p.1.end as int));
    assert(in_text(view_url(links_of_kind(kind, t)[j]), t));
}

proof fn lemma_all_links_in_text(t: Seq<char>, j: int)
    requires
        0 <= j < (links_of_kind(0, t) + links_of_kind(1, t) + links_of_kind(2, t) + links_of_kind(3, t) + links_of_kind(4, t)).len(),
    ensures
        in_text(view_url(
            (links_of_kind(0, t) + links_of_kind(1, t) + links_of_kind(2, t) + links_of_kind(3, t) + links_of_kind(4, t))[j]), t),
{
    let l0 = links_of_kind(0, t);
    let l1 = links_of_kind(1, t);
    let l2 = links_of_kind(2, t);
    let l3 = links_of_kind(3, t);
    let l4 = links_of_kind(4, t);
    let all = l0 + l1 + l2 + l3 + l4;
    if j < l0.len() {
        assert(all[j] == l0[j]);
        lemma_kind_links_in_text(0, t, j);
    } else if j < l0.len() + l1.len() {
        assert(all[j] == l1[j - l0.len()]);
        lemma_kind_links_in_text(1, t, j - l0.len());
    } else if j < l0.len() + l1.len() + l2.len() {
        assert(all[j] == l2[j - l0.len() - l1.len()]);
        lemma_kind_links_in_text(2, t, j - l0.len() - l1.len());
    } else if j < l0.len() + l1.len() + l2.len() + l3.len() {
        assert(all[j] == l3[j - l0.len() - l1.len() - l2.len()]);
        lemma_kind_links_in_text(3, t, j - l0.len() - l1.len() - l2.len());
    } else {
        assert(all[j] == l4[j - l0.len() - l1.len() - l2.len() - l3.len()]);
        lemma_kind_links_in_text(4, t, j - l0.len() - l1.len() - l2.len() - l3.len());
    }
}

proof fn lemma_dedup_subset(s: Seq<MegaLinkView>, t: Seq<char>)
    requires
        forall|j: int| 0 <= j < s.len() ==>
            in_text(view_url(#[trigger] s[j]), t),
    ensures
        forall|i: int| 0 <= i < dedup_by_url(s).len() ==>
            in_text(view_url(#[trigger] dedup_by_url(s)[i]), t),
    decreases s.len(),
{
    if s.len() > 0 {
        let p = s.drop_last();
        assert forall|j: int| 0 <= j < p.len() implies
            in_text(view_url(#[trigger] p[j]), t) by {
            assert(p[j] == s[j]);
        }
        lemma_dedup_subset(p, t);
        let d = dedup_by_url(p);
        assert forall|i: int| 0 <= i < dedup_by_url(s).len() implies
            in_text(view_url(#[trigger] dedup_by_url(s)[i]), t) by {
            if i < d.len() {
                assert(dedup_by_url(s)[i] == d[i]);
            } else {
                assert(dedup_by_url(s)[i] == s[s.len() - 1]);
            }
        }
    }
}

proof fn lemma_dedup_keeps_urls(s: Seq<MegaLinkView>)
    ensures
        forall|j: int| 0 <= j < s.len() ==> exists|i: int|
            0 <= i < dedup_by_url(s).len() && view_url(#[trigger] dedup_by_url(s)[i]) == view_url(#[trigger] s[j]),
    decreases s.len(),
{
    if s.len() > 0 {
        let p = s.drop_last();
        lemma_dedup_keeps_urls(p);
        let d = dedup_by_url(p);
        let ds = dedup_by_url(s);
        assert forall|j: int| 0 <= j < s.len() implies exists|i: int|
            0 <= i < ds.len() && view_url(#[trigger] ds[i]) == view_url(#[trigger] s[j]) by {
            if j < p.len() {
                assert(s[j] == p[j]);
                let i = choose|i: int| 0 <= i < d.len() && view_url(#[trigger] d[i]) == view_url(#[trigger] p[j]);
                assert(ds[i] == d[i]);
            } else if d.len() > 0 && view_url(d.last()) == view_url(s.last()) {
                assert(ds[d.len() - 1] == d.last());
            } else {
                assert(ds[d.len() as int] == s.last());
            }
        }
    }
}

/// Detection reports every link of every kind: for each link that the
/// search of one kind finds in the text, a detected link has its URL
/// (only neighbouring repeats of a URL are dropped).
pub proof fn lemma_detect_reports_every_kind(t: Seq<char>, kind: int, j: int)
    requires
        0 <= kind <= 4,
        0 <= j < links_of_kind(kind, t).len(),
    ensures
        exists|i: int| 0 <= i < spec_detect(t).len()
            && view_url(#[trigger] spec_detect(t)[i]) == view_url(links_of_kind(kind, t)[j]),
{
    let l0 = links_of_kind(0, t);
    let l1 = links_of_kind(1, t);
    let l2 = links_of_kind(2, t);
    let l3 = links_of_kind(3, t);
    let l4 = links_of_kind(4, t);
    let all = l0 + l1 + l2 + l3 + l4;
    let k: int = if kind == 0 { j } else if kind == 1 { l0.len() + j } else if kind == 2 { l0.len() + l1.len() + j }
        else if kind == 3 { l0.len() + l1.len() + l2.len() + j } else { l0.len() + l1.len() + l2.len() + l3.len() + j };
    assert(0 <= k < all.len());
    assert(all[k] == links_of_kind(kind, t)[j]);
    lemma_dedup_keeps_urls(all);
    assert(spec_detect(t) == dedup_by_url(all));
    let i = choose|i: int| 0 <= i < dedup_by_url(all).len() && view_url(#[trigger] dedup_by_url(all)[i]) == view_url(#[trigger] all[k]);
    assert(view_url(spec_detect(t)[i]) == view_url(links_of_kind(kind, t)[j]));
}

// ---------------------------------------------------------------------------
// Link descriptions for the user interface
// ---------------------------------------------------------------------------

/// A description of a detected link for the user interface.
pub struct LinkInfo {
    pub url: String,
    pub link_type: String,
    pub file_id: Option<String>,
    pub key: Option<String>,
}

/// A link description taken by the text of its fields.
pub struct LinkInfoView {
    pub url: Seq<char>,
    pub link_type: Seq<char>,
    pub file_id: Option<Seq<char>>,
    pub key: Option<Seq<char>>,
}

/// The text of an optional string.
pub open spec fn opt_view(o: Option<String>) -> Option<Seq<char>> {
    match o {
        Some(s) => Some(s@),
        None => None,
    }
}

impl View for LinkInfo {
    type V = LinkInfoView;

    open spec fn view(&self) -> LinkInfoView {
        LinkInfoView { url: self.url@, link_type: self.link_type@, file_id: opt_view(self.file_id), key: opt_view(self.key) }
    }
}

/// The description of a link: its URL, its kind, its ID (`folder:node` for a
/// file inside a folder) and its key.
pub open spec fn spec_link_info(l: MegaLinkView) -> LinkInfoView {
    match l {
        MegaLinkView::PublicFile { url, file_id, key } =>
            LinkInfoView { url, link_type: "file"@, file_id: Some(file_id), key: Some(key) },
        MegaLinkView::PublicFolder { url, folder_id, key } =>
            LinkInfoView { url, link_type: "folder"@, file_id: Some(folder_id), key: Some(key) },
        MegaLinkView::FolderFile { url, folder_id, folder_key, file_node_id } =>
            LinkInfoView {
                url,
                link_type: "folder_file"@,
                file_id: Some(folder_id + seq![':'] + file_node_id),
                key: Some(folder_key),
            },
        MegaLinkView::MegaCrypter { url } =>
            LinkInfoView { url, link_type: "megacrypter"@, file_id: None, key: None },
        MegaLinkView::EncryptedLink { url } =>
            LinkInfoView { url, link_type: "encrypted"@, file_id: None, key: None },
    }
}

/// Which kind a link is, numbered in the order of the variants.
pub open spec fn link_kind(l: MegaLinkView) -> int {
    match l {
        MegaLinkView::PublicFile { .. } => 0,
        MegaLinkView::PublicFolder { .. } => 1,
        MegaLinkView::FolderFile { .. } => 2,
        MegaLinkView::MegaCrypter { .. } => 3,
        MegaLinkView::EncryptedLink { .. } => 4,
    }
}

/// A link is described by its own URL and a type name that tells its kind:
/// `file`, `folder`, `folder_file`, `megacrypter` or `encrypted`, so links of
/// different kinds never get the same type name. A file or folder link
/// carries its ID and key, a file inside a folder its `folder:node` ID and
/// the folder's key.
pub proof fn lemma_link_info_describes(a: MegaLinkView, b: MegaLinkView)
    ensures
        spec_link_info(a).url == view_url(a),
        a is PublicFile ==> spec_link_info(a).link_type == seq!['f', 'i', 'l', 'e'],
        a is PublicFolder ==> spec_link_info(a).link_type == seq!['f', 'o', 'l', 'd', 'e', 'r'],
        a is FolderFile ==> spec_link_info(a).link_type
            == seq!['f', 'o', 'l', 'd', 'e', 'r', '_', 'f', 'i', 'l', 'e'],
        a is MegaCrypter ==> spec_link_info(a).link_type
            == seq!['m', 'e', 'g', 'a', 'c', 'r', 'y', 'p', 't', 'e', 'r'],
        a is EncryptedLink ==> spec_link_info(a).link_type
            == seq!['e', 'n', 'c', 'r', 'y', 'p', 't', 'e', 'd'],
        link_kind(a) != link_kind(b) ==> spec_link_info(a).link_type != spec_link_info(b).link_type,
        a matches MegaLinkView::PublicFile { file_id, key, .. } ==>
            spec_link_info(a).file_id == Some(file_id) && spec_link_info(a).key == Some(key),
        a matches MegaLinkView::PublicFolder { folder_id, key, .. } ==>
            spec_link_info(a).file_id == Some(folder_id) && spec_link_info(a).key == Some(key),
        a matches MegaLinkView::FolderFile { folder_id, folder_key, file_node_id, .. } ==>
            spec_link_info(a).file_id == Some(folder_id + seq![':'] + file_node_id)
            && spec_link_info(a).key == Some(folder_key),
{
    reveal_strlit("file");
    reveal_strlit("folder");
    reveal_strlit("folder_file");
    reveal_strlit("megacrypter");
    reveal_strlit("encrypted");
    let names = seq![
        seq!['f', 'i', 'l', 'e'],
        seq!['f', 'o', 'l', 'd', 'e', 'r'],
        seq!['f', 'o', 'l', 'd', 'e', 'r', '_', 'f', 'i', 'l', 'e'],
        seq!['m', 'e', 'g', 'a', 'c', 'r', 'y', 'p', 't', 'e', 'r'],
        seq!['e', 'n', 'c', 'r', 'y', 'p', 't', 'e', 'd'],
    ];
    assert("file"@ =~= names[0]);
    assert("folder"@ =~= names[1]);
    assert("folder_file"@ =~= names[2]);
    assert("megacrypter"@ =~= names[3]);
    assert("encrypted"@ =~= names[4]);
    assert(spec_link_info(a).link_type == names[link_kind(a)]);
    assert(spec_link_info(b).link_type == names[link_kind(b)]);
    // The names differ in length, or (file and folder_file aside) in their first letters.
    assert(names[0][1] != names[1][1]);
    assert(names[0][1] != names[2][1]);
    assert(names[3][0] != names[4][0]);
    assert(names[1].len() != names[2].len());
    assert(names[0].len() != names[3].len() && names[0].len() != names[4].len());
    assert(names[1].len() != names[3].len() && names[1].len() != names[4].len());
    assert(names[2].len() != names[4].len());
    assert(names[2][0] != names[3][0]);
    if link_kind(a) != link_kind(b) {
        let x = names[link_kind(a)];
        let y = names[link_kind(b)];
        if x == y {
            assert(x.len() == y.len());
            assert(x[0] == y[0]);
            assert(x[1] == y[1]);
        }
    }
}

impl LinkInfo {
    /// The description of a link.
    pub fn from_link(link: &MegaLink) -> (r: LinkInfo)
        ensures
            r@ == spec_link_info(link@),
    {
        match link {
            MegaLink::PublicFile { url, file_id, key } => LinkInfo {
                url: url.clone(),
                link_type: String::from_str("file"),
                file_id: Some(file_id.clone()),
                key: Some(key.clone()),
            },
            MegaLink::PublicFolder { url, folder_id, key } => LinkInfo {
                url: url.clone(),
                link_type: String::from_str("folder"),
                file_id: Some(folder_id.clone()),
                key: Some(key.clone()),
            },
            MegaLink::FolderFile { url, folder_id, folder_key, file_node_id } => {
                let mut id = folder_id.clone();
                id.append(":");
                id.append(file_node_id.as_str());
                proof {
                    reveal_strlit(":");
                    assert(id@ =~= folder_id@ + seq![':'] + file_node_id@);
                }
                LinkInfo {
                    url: url.clone(),
                    link_type: String::from_str("folder_file"),
                    file_id: Some(id),
                    key: Some(folder_key.clone()),
                }
            },
            MegaLink::MegaCrypter { url } => LinkInfo {
                url: url.clone(),
                link_type: String::from_str("megacrypter"),
                file_id: None,
                key: None,
            },
            MegaLink::EncryptedLink { url } => LinkInfo {
                url: url.clone(),
                link_type: String::from_str("encrypted"),
                file_id: None,
                key: None,
            },
        }
    }
}

impl<'a> vstd::std_specs::convert::FromSpecImpl<&'a MegaLink> for LinkInfo {
    open spec fn obeys_from_spec() -> bool {
        false
    }

    open spec fn from_spec(v: &'a MegaLink) -> LinkInfo {
        arbitrary()
    }
}

impl<'a> From<&'a MegaLink> for LinkInfo {
    fn from(link: &'a MegaLink) -> (r: LinkInfo)
        ensures
            r@ == spec_link_info(link@),
    {
        LinkInfo::from_link(link)
    }
}

} // verus!
