//! Downloads: chunk layout, progress accounting, bandwidth limits, the shared
//! chunk dispenser, the decisions of the chunk workers and the writer, and
//! the records that describe a download.

pub mod chunk;
pub mod dispenser;
pub mod worker;
pub mod writer;
pub mod progress;
pub mod throttle;
pub mod speed;

use vstd::prelude::*;
use vstd::string::StringExecFns;
use crate::config::{join_component, joined, plain_dir};
use crate::db::DownloadRecord;
use crate::text::opt_text;
use crate::util::{hex_lower, is_lower_hex_digit, sha1_hex, sha256_digest};
use chunk::{calculate_chunk_offset, calculate_last_written_chunk, spec_chunk_offset, spec_last_written_chunk};

verus! {

/// Where a download stands.
#[derive(Clone, Debug)]
pub enum DownloadState {
    Queued,
    Provisioning,
    WaitingToStart,
    Running,
    Paused,
    Finished,
    Failed(String),
    Cancelled,
}

/// The text of a string as `{:?}` formats it: quoted, with quotes,
/// backslashes and non-printable characters escaped.
pub uninterp spec fn debug_quoted(s: Seq<char>) -> Seq<char>;

/// `format!("{:?}", s)` of a string slice.
#[verifier::external_body]
fn debug_str(s: &str) -> (r: String)
    ensures
        r@ == debug_quoted(s@),
{
    format!("{:?}", s)
}

/// The text of a state: its name, and for a failure the quoted message in
/// parentheses (what `{:?}` gives).
pub open spec fn state_text(s: DownloadState) -> Seq<char> {
    match s {
        DownloadState::Queued => "Queued"@,
        DownloadState::Provisioning => "Provisioning"@,
        DownloadState::WaitingToStart => "WaitingToStart"@,
        DownloadState::Running => "Running"@,
        DownloadState::Paused => "Paused"@,
        DownloadState::Finished => "Finished"@,
        DownloadState::Failed(m) => "Failed("@ + debug_quoted(m@) + ")"@,
        DownloadState::Cancelled => "Cancelled"@,
    }
}

impl DownloadState {
    /// The text of the state.
    pub fn label(&self) -> (r: String)
        ensures
            r@ == state_text(*self),
    {
        match self {
            DownloadState::Queued => String::from_str("Queued"),
            DownloadState::Provisioning => String::from_str("Provisioning"),
            DownloadState::WaitingToStart => String::from_str("WaitingToStart"),
            DownloadState::Running => String::from_str("Running"),
            DownloadState::Paused => String::from_str("Paused"),
            DownloadState::Finished => String::from_str("Finished"),
            DownloadState::Failed(m) => {
                let mut s = String::from_str("Failed(");
                let q = debug_str(m.as_str());
                s.append(q.as_str());
                s.append(")");
                s
            },
            DownloadState::Cancelled => String::from_str("Cancelled"),
        }
    }

    /// Whether the download is running.
    pub fn is_running(&self) -> (r: bool)
        ensures
            r == (*self is Running),
    {
        match self {
            DownloadState::Running => true,
            _ => false,
        }
    }

    /// Whether the download is paused.
    pub fn is_paused(&self) -> (r: bool)
        ensures
            r == (*self is Paused),
    {
        match self {
            DownloadState::Paused => true,
            _ => false,
        }
    }

    /// Whether the download takes one of the running slots: it is being
    /// set up, waiting to start, or running.
    pub fn is_active(&self) -> (r: bool)
        ensures
            r == (*self is Provisioning || *self is WaitingToStart || *self is Running),
    {
        match self {
            DownloadState::Provisioning => true,
            DownloadState::WaitingToStart => true,
            DownloadState::Running => true,
            _ => false,
        }
    }

    /// Whether the download is over: finished, failed or cancelled.
    pub fn is_over(&self) -> (r: bool)
        ensures
            r == (*self is Finished || *self is Failed || *self is Cancelled),
    {
        match self {
            DownloadState::Finished => true,
            DownloadState::Failed(_) => true,
            DownloadState::Cancelled => true,
            _ => false,
        }
    }
}

/// What a download is asked to fetch, and where to put it.
#[derive(Clone)]
pub struct DownloadParams {
    pub url: String,
    pub file_id: String,
    pub file_key: String,
    pub file_name: Option<String>,
    pub file_size: Option<u64>,
    pub download_path: String,
    pub file_pass: Option<String>,
    pub file_noexpire: Option<String>,
    pub mega_account_email: Option<String>,
    pub custom_chunks_dir: Option<String>,
    pub slots: u32,
}

/// What is shown of a download.
pub struct DownloadInfo {
    pub id: String,
    pub file_name: String,
    pub file_size: u64,
    pub progress: u64,
    pub speed: u64,
    pub state: String,
    pub eta_secs: Option<u64>,
    pub slots: u32,
    pub url: String,
}

/// Fewest workers a download runs.
pub const MIN_SLOTS: u32 = 1;
/// Most workers a download runs.
pub const MAX_SLOTS: u32 = 20;

/// The number of workers a download runs when asked for `n`: `n` kept
/// between 1 and 20.
pub fn clamp_slots(n: u32) -> (r: u32)
    ensures
        r == (if n < MIN_SLOTS { MIN_SLOTS } else if n > MAX_SLOTS { MAX_SLOTS } else { n }),
{
    if n < MIN_SLOTS {
        MIN_SLOTS
    } else if n > MAX_SLOTS {
        MAX_SLOTS
    } else {
        n
    }
}

/// The bandwidth limit of all downloads in bytes per second: the
/// configured KiB/s where limiting is on, 0 (unlimited) otherwise.
pub fn throttle_limit(limit_download_speed: bool, max_download_speed_kbps: u32) -> (r: u64)
    ensures
        r == (if limit_download_speed { max_download_speed_kbps * 1024 } else { 0 }),
{
    if limit_download_speed {
        max_download_speed_kbps as u64 * 1024
    } else {
        0
    }
}

/// Seconds left at a speed in bytes per second; none at speed zero.
pub fn eta_secs(remaining_bytes: u64, speed_bps: u64) -> (r: Option<u64>)
    ensures
        speed_bps == 0 ==> r is None,
        speed_bps > 0 ==> r == Some((remaining_bytes / speed_bps) as u64),
        r matches Some(e) ==> e * speed_bps <= remaining_bytes < (e + 1) * speed_bps,
{
    if speed_bps > 0 {
        let e = remaining_bytes / speed_bps;
        assert(e * speed_bps <= remaining_bytes < (e + 1) * speed_bps) by (nonlinear_arith)
            requires
                e == remaining_bytes / speed_bps,
                speed_bps > 0;
    }
    if speed_bps == 0 {
        None
    } else {
        Some(remaining_bytes / speed_bps)
    }
}

/// What is shown of a download: its fields, its state's text, and the
/// time left for the bytes still missing at the current speed.
pub fn download_info(
    id: String,
    file_name: String,
    file_size: u64,
    progress: u64,
    speed: u64,
    state: &DownloadState,
    slots: u32,
    url: String,
) -> (r: DownloadInfo)
    ensures
        r.id == id,
        r.file_name == file_name,
        r.file_size == file_size,
        r.progress == progress,
        r.speed == speed,
        r.state@ == state_text(*state),
        r.eta_secs == (if speed == 0 { None } else {
            Some((if file_size >= progress { (file_size - progress) as u64 } else { 0u64 }) / speed)
        }),
        r.slots == slots,
        r.url == url,
{
    let remaining = if file_size >= progress { file_size - progress } else { 0 };
    DownloadInfo {
        id,
        file_name,
        file_size,
        progress,
        speed,
        state: state.label(),
        eta_secs: eta_secs(remaining, speed),
        slots,
        url,
    }
}

/// The name a download shows before its metadata is known (`unknown`
/// where none was given).
pub fn display_name(params: &DownloadParams) -> (r: String)
    ensures
        r@ == (match params.file_name {
            Some(n) => n@,
            None => "unknown"@,
        }),
{
    match &params.file_name {
        Some(n) => n.clone(),
        None => String::from_str("unknown"),
    }
}

/// The name of the output file (`download` where none was given).
pub fn output_file_name(params: &DownloadParams) -> (r: String)
    ensures
        r@ == (match params.file_name {
            Some(n) => n@,
            None => "download"@,
        }),
{
    match &params.file_name {
        Some(n) => n.clone(),
        None => String::from_str("download"),
    }
}

/// The name of the directory that holds a download's chunks:
/// `.MEGABASTERD_CHUNKS_` and a hash of its URL.
pub open spec fn chunks_dir_name(url: Seq<char>) -> Seq<char> {
    ".MEGABASTERD_CHUNKS_"@ + hex_lower(sha256_digest(vstd::utf8::encode_utf8(url))).subrange(0, 40)
}

/// The directory for a download's chunks: the custom one where set, else
/// the hashed name inside the download directory.
pub fn chunks_dir(params: &DownloadParams) -> (r: String)
    ensures
        params.custom_chunks_dir matches Some(d) ==> r@ == d@,
        params.custom_chunks_dir is None && plain_dir(params.download_path@) ==>
            joined(params.download_path@, chunks_dir_name(params.url@), r@),
{
    match &params.custom_chunks_dir {
        Some(d) => d.clone(),
        None => {
            let mut name = String::from_str(".MEGABASTERD_CHUNKS_");
            let h = sha1_hex(params.url.as_str());
            name.append(h.as_str());
            proof {
                reveal_strlit(".MEGABASTERD_CHUNKS_");
                let prefix = ".MEGABASTERD_CHUNKS_"@;
                assert(prefix =~= seq!['.', 'M', 'E', 'G', 'A', 'B', 'A', 'S', 'T', 'E', 'R', 'D', '_', 'C', 'H', 'U', 'N', 'K', 'S', '_']);
                let hash = h@;
                assert forall|i: int| 0 <= i < name@.len() implies #[trigger] name@[i] != '/' && name@[i] != '\\' by {
                    if i >= 20 {
                        assert(name@[i] == hash[i - 20]);
                        assert(is_lower_hex_digit(hash[i - 20]));
                    }
                }
                assert(name@[1] == 'M');
                assert(!(name@ =~= seq!['.']));
                assert(!(name@ =~= seq!['.', '.']));
            }
            join_component(params.download_path.as_str(), name.as_str())
        },
    }
}

/// Which downloads stay listed when the finished ones are closed: those
/// that are not over.
pub fn kept_after_close(states: &[DownloadState]) -> (r: Vec<bool>)
    ensures
        r@.len() == states@.len(),
        forall|i: int| 0 <= i < states@.len() ==>
            #[trigger] r@[i] == !(states@[i] is Finished || states@[i] is Failed || states@[i] is Cancelled),
{
    let mut r: Vec<bool> = Vec::new();
    let mut i: usize = 0;
    while i < states.len()
        invariant
            i <= states@.len(),
            r@.len() == i,
            forall|j: int| 0 <= j < i ==>
                #[trigger] r@[j] == !(states@[j] is Finished || states@[j] is Failed || states@[j] is Cancelled),
        decreases states@.len() - i,
    {
        r.push(!states[i].is_over());
        i = i + 1;
    }
    r
}

/// How a download ends once its workers and writer have stopped: a
/// cancelled one is marked cancelled and kept (its chunks and stored record
/// stay for a resume); otherwise it is finished, and its chunk directory and
/// stored record are removed (the `bool`).
pub fn end_of_run(cancelled: bool) -> (r: (DownloadState, bool))
    ensures
        cancelled ==> r.0 is Cancelled && !r.1,
        !cancelled ==> r.0 is Finished && r.1,
{
    if cancelled {
        (DownloadState::Cancelled, false)
    } else {
        (DownloadState::Finished, true)
    }
}

/// The chunk a download starts at: the one after the last whole chunk of
/// an output file that already holds `existing_size` bytes, or the first.
pub fn resume_start_chunk(existing_size: Option<u64>, size_multi: u32) -> (r: u64)
    ensures
        r == (match existing_size {
            Some(n) => spec_last_written_chunk(n as nat, size_multi as nat) + 1,
            None => 1,
        }),
{
    match existing_size {
        Some(n) => calculate_last_written_chunk(n, size_multi) + 1,
        None => 1,
    }
}

/// The length an existing output file is cut back to before a download
/// resumes: the start of the chunk it resumes at, so that only whole chunks
/// are kept and the resumed chunks follow them without repeating bytes.
pub fn resume_truncate_len(existing_size: u64, size_multi: u32) -> (r: u64)
    ensures
        r == spec_chunk_offset(spec_last_written_chunk(existing_size as nat, size_multi as nat) + 1, size_multi as nat),
        r <= existing_size,
{
    let last = calculate_last_written_chunk(existing_size, size_multi);
    calculate_chunk_offset(last + 1, size_multi)
}

fn clone_opt(o: &Option<String>) -> (r: Option<String>)
    ensures
        opt_text(r) == opt_text(*o),
{
    match o {
        Some(s) => Some(s.clone()),
        None => None,
    }
}

/// The record kept for a download under way, so that it can be resumed.
pub fn download_record(params: &DownloadParams, file_name: &str, file_size: u64) -> (r: DownloadRecord)
    ensures
        r.url@ == params.url@,
        opt_text(r.email) == opt_text(params.mega_account_email),
        r.path@ == params.download_path@,
        r.filename@ == file_name@,
        r.filekey@ == params.file_key@,
        r.filesize == file_size,
        opt_text(r.filepass) == opt_text(params.file_pass),
        opt_text(r.filenoexpire) == opt_text(params.file_noexpire),
        opt_text(r.custom_chunks_dir) == opt_text(params.custom_chunks_dir),
{
    DownloadRecord {
        url: params.url.clone(),
        email: clone_opt(&params.mega_account_email),
        path: params.download_path.clone(),
        filename: String::from_str(file_name),
        filekey: params.file_key.clone(),
        filesize: file_size,
        filepass: clone_opt(&params.file_pass),
        filenoexpire: clone_opt(&params.file_noexpire),
        custom_chunks_dir: clone_opt(&params.custom_chunks_dir),
    }
}

} // verus!
