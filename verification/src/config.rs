//! Settings of the application, their defaults, and their storage as
//! key/value text pairs.

use vstd::prelude::*;
use vstd::string::StringExecFns;
use crate::text::{decimal, lemma_parse_decimal_roundtrip, opt_text, parse_u16, parse_u32, push_decimal, spec_parse_unsigned, str_chars, chars_to_string};

verus! {

/// MEGA API error codes that retrying cannot fix.
pub const FATAL_API_ERROR_CODES: [i32; 10] = [-2i32, -4, -8, -14, -15, -16, -17, 22, 23, 24];

/// MEGA API error codes that only ask for the request to be repeated.
pub const MEGA_ERROR_NO_EXCEPTION_CODES: [i32; 2] = [-1i32, -3];

/// Version of the application.
pub const APP_VERSION: &'static str = "1.0.0";
/// Fewest chunk workers per download.
pub const MIN_WORKERS: u32 = 1;
/// Most chunk workers per download.
pub const MAX_WORKERS: u32 = 20;
/// Default number of chunk workers per download.
pub const WORKERS_DEFAULT: u32 = 6;
/// Default number of simultaneous downloads.
pub const SIM_TRANSFERENCES_DEFAULT: u32 = 4;
/// Most simultaneous downloads.
pub const MAX_SIM_TRANSFERENCES: u32 = 50;
/// Size in MiB of chunks from the eighth on.
pub const CHUNK_SIZE_MULTI: u32 = 20;
/// Pacing slice of the bandwidth throttler, in bytes.
pub const THROTTLE_SLICE_SIZE: usize = 16384;
/// Default I/O buffer size, in bytes.
pub const DEFAULT_BYTE_BUFFER_SIZE: usize = 16384;
/// Clipboard polling interval, in milliseconds.
pub const CLIPBOARD_CHECK_MS: u64 = 250;
/// A download without progress for this many seconds is cancelled.
pub const PROGRESS_WATCHDOG_TIMEOUT_S: u64 = 600;
/// Longest wait for workers to stop, in seconds.
pub const MAX_WAIT_WORKERS_SHUTDOWN_S: u64 = 15;
/// HTTP connect timeout, in milliseconds.
pub const HTTP_CONNECT_TIMEOUT_MS: u64 = 60_000;
/// HTTP read timeout, in milliseconds.
pub const HTTP_READ_TIMEOUT_MS: u64 = 60_000;
/// Proxy connect timeout, in milliseconds.
pub const PROXY_CONNECT_TIMEOUT_MS: u64 = 5_000;
/// Errors a chunk worker tolerates before giving up.
pub const MAX_CHUNK_ERRORS: u32 = 50;
/// User agent of HTTP requests.
pub const DEFAULT_USER_AGENT: &'static str = "Mozilla/5.0 (X11; Linux x86_64; rv:61.0) Gecko/20100101 Firefox/61.0";
/// How long a failing smart proxy stays blocked, in seconds.
pub const SMART_PROXY_BAN_TIME_S: u32 = 300;
/// Smart proxy timeout, in milliseconds.
pub const SMART_PROXY_TIMEOUT_MS: u32 = 5_000;
/// Smart proxy list refresh interval, in minutes.
pub const SMART_PROXY_AUTOREFRESH_MIN: u32 = 60;


// ---------------------------------------------------------------------------
// Paths
// ---------------------------------------------------------------------------

/// Whether a name is one ordinary path component: not empty, without a
/// separator, not `.` or `..`, and without a drive prefix (`C:`).
pub open spec fn single_component(name: Seq<char>) -> bool {
    &&& name.len() > 0
    &&& forall|i: int| 0 <= i < name.len() ==> #[trigger] name[i] != '/' && name[i] != '\\'
    &&& name != seq!['.']
    &&& name != seq!['.', '.']
    &&& (name.len() < 2 || name[1] != ':')
}

/// Whether a directory is written without a leading backslash, so that it is
/// neither a Windows verbatim (`\\?\`) nor a UNC path, which joining rewrites.
pub open spec fn plain_dir(base: Seq<char>) -> bool {
    base.len() == 0 || base[0] != '\\'
}

/// Whether `sep` is what joining puts between a directory and a name: nothing
/// or one separator character.
pub open spec fn is_join_sep(sep: Seq<char>) -> bool {
    sep.len() <= 1 && (sep.len() == 0 || sep[0] == '/' || sep[0] == '\\')
}

/// Whether `r` is `name` joined onto `base`: the directory, at most one
/// separator (none after an empty directory), then the name.
pub open spec fn joined(base: Seq<char>, name: Seq<char>, r: Seq<char>) -> bool {
    exists|sep: Seq<char>| #[trigger] is_join_sep(sep) && (base.len() == 0 ==> sep.len() == 0) && r == base + sep + name
}

/// `std::path::Path::join` of one ordinary path component onto a directory.
/// The separator depends on the platform (and none is added after a
/// directory that already ends in one), so the result is the directory, at
/// most one separator, then the name. For a directory with a leading
/// backslash (a Windows verbatim or UNC path) the result is not described.
#[verifier::external_body]
pub(crate) fn path_join(base: &str, name: &str) -> (r: String)
    requires
        single_component(name@),
    ensures
        plain_dir(base@) ==> joined(base@, name@, r@),
{
    std::path::Path::new(base).join(name).to_string_lossy().to_string()
}

/// A name joined onto a plain directory gives a plain directory.
proof fn lemma_joined_plain(base: Seq<char>, name: Seq<char>, r: Seq<char>)
    requires
        plain_dir(base),
        joined(base, name, r),
        name.len() > 0,
        name[0] != '\\',
    ensures
        plain_dir(r),
{
    let sep = choose|sep: Seq<char>| #[trigger] is_join_sep(sep) && (base.len() == 0 ==> sep.len() == 0) && r == base + sep + name;
    if base.len() == 0 {
        assert(r[0] == name[0]);
    } else {
        assert(r[0] == base[0]);
    }
}

/// `name` joined onto `base`, where `name` is an ordinary component.
pub(crate) fn join_component(base: &str, name: &str) -> (r: String)
    requires
        single_component(name@),
        name@[0] != '\\',
    ensures
        plain_dir(base@) ==> joined(base@, name@, r@) && plain_dir(r@),
{
    let r = path_join(base, name);
    proof {
        if plain_dir(base@) {
            lemma_joined_plain(base@, name@, r@);
        }
    }
    r
}

/// The directories an application's data goes in on Linux, under the home
/// directory: `.local/share/megabasterd`.
pub open spec fn linux_data_dir(home_dir: Seq<char>, r: Seq<char>) -> bool {
    exists|a: Seq<char>, b: Seq<char>|
        #[trigger] joined(home_dir, ".local"@, a) && #[trigger] joined(a, "share"@, b) && joined(b, "megabasterd"@, r)
}

/// The data directory of the application, which holds its database and
/// settings, on Linux: `.local/share/megabasterd` inside the home directory.
pub fn megabasterd_dir(home_dir: &str) -> (r: String)
    ensures
        plain_dir(home_dir@) ==> linux_data_dir(home_dir@, r@),
{
    proof {
        reveal_strlit(".local");
        reveal_strlit("share");
        reveal_strlit("megabasterd");
        assert(single_component(".local"@)) by {
            assert(".local"@ =~= seq!['.', 'l', 'o', 'c', 'a', 'l']);
            assert(!(".local"@ =~= seq!['.']));
            assert(!(".local"@ =~= seq!['.', '.']));
        }
        assert(single_component("share"@)) by {
            assert("share"@ =~= seq!['s', 'h', 'a', 'r', 'e']);
            assert(!("share"@ =~= seq!['.']));
            assert(!("share"@ =~= seq!['.', '.']));
        }
        assert(single_component("megabasterd"@)) by {
            assert("megabasterd"@ =~= seq!['m', 'e', 'g', 'a', 'b', 'a', 's', 't', 'e', 'r', 'd']);
            assert(!("megabasterd"@ =~= seq!['.']));
            assert(!("megabasterd"@ =~= seq!['.', '.']));
        }
    }
    let a = join_component(home_dir, ".local");
    let b = join_component(a.as_str(), "share");
    let r = join_component(b.as_str(), "megabasterd");
    proof {
        if plain_dir(home_dir@) {
            assert(joined(home_dir@, ".local"@, a@) && joined(a@, "share"@, b@) && joined(b@, "megabasterd"@, r@));
        }
    }
    r
}

/// The platforms whose data directories are known.
#[derive(Clone, Copy, Debug, PartialEq, Eq, Structural)]
pub enum Platform {
    Linux,
    MacOs,
    Windows,
}

/// The data directory of the application on a platform: on Linux
/// `.local/share/megabasterd` in the home directory, on macOS
/// `Library/Application Support/com.megabasterd.app` in the home directory,
/// on Windows `com.megabasterd.app` in the roaming application data
/// directory (`%APPDATA%`).
pub fn platform_data_dir(platform: Platform, home_dir: &str, app_data_dir: &str) -> (r: String)
    ensures
        platform == Platform::Linux && plain_dir(home_dir@) ==> linux_data_dir(home_dir@, r@),
        platform == Platform::MacOs && plain_dir(home_dir@) ==> exists|a: Seq<char>, b: Seq<char>|
            #[trigger] joined(home_dir@, "Library"@, a) && #[trigger] joined(a, "Application Support"@, b)
                && joined(b, "com.megabasterd.app"@, r@),
        platform == Platform::Windows && plain_dir(app_data_dir@) ==> joined(app_data_dir@, "com.megabasterd.app"@, r@),
{
    proof {
        reveal_strlit("Library");
        reveal_strlit("Application Support");
        reveal_strlit("com.megabasterd.app");
        assert(single_component("Library"@)) by {
            assert("Library"@ =~= seq!['L', 'i', 'b', 'r', 'a', 'r', 'y']);
            assert(!("Library"@ =~= seq!['.']));
            assert(!("Library"@ =~= seq!['.', '.']));
        }
        assert(single_component("Application Support"@)) by {
            assert("Application Support"@ =~= seq!['A', 'p', 'p', 'l', 'i', 'c', 'a', 't', 'i', 'o', 'n', ' ', 'S', 'u', 'p', 'p', 'o', 'r', 't']);
            assert(!("Application Support"@ =~= seq!['.']));
            assert(!("Application Support"@ =~= seq!['.', '.']));
        }
        assert(single_component("com.megabasterd.app"@)) by {
            assert("com.megabasterd.app"@ =~= seq!['c', 'o', 'm', '.', 'm', 'e', 'g', 'a', 'b', 'a', 's', 't', 'e', 'r', 'd', '.', 'a', 'p', 'p']);
            assert(!("com.megabasterd.app"@ =~= seq!['.']));
            assert(!("com.megabasterd.app"@ =~= seq!['.', '.']));
        }
    }
    match platform {
        Platform::Linux => megabasterd_dir(home_dir),
        Platform::MacOs => {
            let a = join_component(home_dir, "Library");
            let b = join_component(a.as_str(), "Application Support");
            let r = join_component(b.as_str(), "com.megabasterd.app");
            proof {
                if plain_dir(home_dir@) {
                    assert(joined(home_dir@, "Library"@, a@) && joined(a@, "Application Support"@, b@));
                }
            }
            r
        },
        Platform::Windows => join_component(app_data_dir, "com.megabasterd.app"),
    }
}

// ---------------------------------------------------------------------------
// Settings
// ---------------------------------------------------------------------------

/// The settings of the application.
#[derive(Clone, Debug)]
pub struct AppConfig {
    pub home_dir: String,
    pub default_download_path: String,
    pub custom_chunks_dir: Option<String>,
    pub use_custom_chunks_dir: bool,
    pub max_downloads: u32,
    pub default_slots: u32,
    pub use_slots: bool,
    pub chunk_size_multi: u32,
    pub limit_download_speed: bool,
    pub max_download_speed_kbps: u32,
    pub use_proxy: bool,
    pub proxy_host: Option<String>,
    pub proxy_port: u16,
    pub proxy_user: Option<String>,
    pub proxy_pass: Option<String>,
    pub use_smart_proxy: bool,
    pub smart_proxy_url: Option<String>,
    pub smart_proxy_ban_time_s: u32,
    pub smart_proxy_timeout_ms: u32,
    pub smart_proxy_autorefresh_min: u32,
    pub smart_proxy_random_select: bool,
    pub smart_proxy_reset_slot: bool,
    pub force_smart_proxy: bool,
    pub use_mega_account_down: bool,
    pub mega_account_down_email: Option<String>,
    pub dark_mode: bool,
    pub language: String,
    pub init_paused: bool,
    pub monitor_clipboard: bool,
    pub verify_cbc_mac: bool,
    pub verify_download_file: bool,
}

/// The settings, their text taken by value.
pub struct AppConfigView {
    pub home_dir: Seq<char>,
    pub default_download_path: Seq<char>,
    pub custom_chunks_dir: Option<Seq<char>>,
    pub use_custom_chunks_dir: bool,
    pub max_downloads: u32,
    pub default_slots: u32,
    pub use_slots: bool,
    pub chunk_size_multi: u32,
    pub limit_download_speed: bool,
    pub max_download_speed_kbps: u32,
    pub use_proxy: bool,
    pub proxy_host: Option<Seq<char>>,
    pub proxy_port: u16,
    pub proxy_user: Option<Seq<char>>,
    pub proxy_pass: Option<Seq<char>>,
    pub use_smart_proxy: bool,
    pub smart_proxy_url: Option<Seq<char>>,
    pub smart_proxy_ban_time_s: u32,
    pub smart_proxy_timeout_ms: u32,
    pub smart_proxy_autorefresh_min: u32,
    pub smart_proxy_random_select: bool,
    pub smart_proxy_reset_slot: bool,
    pub force_smart_proxy: bool,
    pub use_mega_account_down: bool,
    pub mega_account_down_email: Option<Seq<char>>,
    pub dark_mode: bool,
    pub language: Seq<char>,
    pub init_paused: bool,
    pub monitor_clipboard: bool,
    pub verify_cbc_mac: bool,
    pub verify_download_file: bool,
}


impl View for AppConfig {
    type V = AppConfigView;

    open spec fn view(&self) -> AppConfigView {
        AppConfigView {
            home_dir: self.home_dir@,
            default_download_path: self.default_download_path@,
            custom_chunks_dir: opt_text(self.custom_chunks_dir),
            use_custom_chunks_dir: self.use_custom_chunks_dir,
            max_downloads: self.max_downloads,
            default_slots: self.default_slots,
            use_slots: self.use_slots,
            chunk_size_multi: self.chunk_size_multi,
            limit_download_speed: self.limit_download_speed,
            max_download_speed_kbps: self.max_download_speed_kbps,
            use_proxy: self.use_proxy,
            proxy_host: opt_text(self.proxy_host),
            proxy_port: self.proxy_port,
            proxy_user: opt_text(self.proxy_user),
            proxy_pass: opt_text(self.proxy_pass),
            use_smart_proxy: self.use_smart_proxy,
            smart_proxy_url: opt_text(self.smart_proxy_url),
            smart_proxy_ban_time_s: self.smart_proxy_ban_time_s,
            smart_proxy_timeout_ms: self.smart_proxy_timeout_ms,
            smart_proxy_autorefresh_min: self.smart_proxy_autorefresh_min,
            smart_proxy_random_select: self.smart_proxy_random_select,
            smart_proxy_reset_slot: self.smart_proxy_reset_slot,
            force_smart_proxy: self.force_smart_proxy,
            use_mega_account_down: self.use_mega_account_down,
            mega_account_down_email: opt_text(self.mega_account_down_email),
            dark_mode: self.dark_mode,
            language: self.language@,
            init_paused: self.init_paused,
            monitor_clipboard: self.monitor_clipboard,
            verify_cbc_mac: self.verify_cbc_mac,
            verify_download_file: self.verify_download_file,
        }
    }
}

/// The defaults for a home directory and the download directory inside it.
pub open spec fn spec_defaults(home_dir: Seq<char>, download_path: Seq<char>) -> AppConfigView {
    AppConfigView {
        home_dir,
        default_download_path: download_path,
        custom_chunks_dir: None,
        use_custom_chunks_dir: false,
        max_downloads: SIM_TRANSFERENCES_DEFAULT,
        default_slots: WORKERS_DEFAULT,
        use_slots: true,
        chunk_size_multi: CHUNK_SIZE_MULTI,
        limit_download_speed: false,
        max_download_speed_kbps: 0,
        use_proxy: false,
        proxy_host: None,
        proxy_port: 8080,
        proxy_user: None,
        proxy_pass: None,
        use_smart_proxy: false,
        smart_proxy_url: None,
        smart_proxy_ban_time_s: SMART_PROXY_BAN_TIME_S,
        smart_proxy_timeout_ms: SMART_PROXY_TIMEOUT_MS,
        smart_proxy_autorefresh_min: SMART_PROXY_AUTOREFRESH_MIN,
        smart_proxy_random_select: true,
        smart_proxy_reset_slot: true,
        force_smart_proxy: false,
        use_mega_account_down: false,
        mega_account_down_email: None,
        dark_mode: false,
        language: "EN"@,
        init_paused: false,
        monitor_clipboard: true,
        verify_cbc_mac: false,
        verify_download_file: false,
    }
}

/// Stored settings: key/value text pairs.
pub open spec fn settings_view(settings: Seq<(String, String)>) -> Seq<(Seq<char>, Seq<char>)> {
    settings.map_values(|p: (String, String)| (p.0@, p.1@))
}

/// The value stored for `key`: that of the first pair with this key.
#[verifier::opaque]
pub open spec fn lookup(settings: Seq<(Seq<char>, Seq<char>)>, key: Seq<char>) -> Option<Seq<char>>
    decreases settings.len(),
{
    if settings.len() == 0 {
        None
    } else if settings[0].0 == key {
        Some(settings[0].1)
    } else {
        lookup(settings.drop_first(), key)
    }
}

/// A stored flag: `yes`, `true` or `1` is set, anything else is not; the
/// current value stays when the key is absent.
#[verifier::opaque]
pub open spec fn load_bool(settings: Seq<(Seq<char>, Seq<char>)>, key: Seq<char>, current: bool) -> bool {
    match lookup(settings, key) {
        Some(v) => v == "yes"@ || v == "true"@ || v == "1"@,
        None => current,
    }
}

/// A stored number: the current value stays when the key is absent or the
/// text is not a decimal `u32`.
#[verifier::opaque]
pub open spec fn load_u32(settings: Seq<(Seq<char>, Seq<char>)>, key: Seq<char>, current: u32) -> u32 {
    match lookup(settings, key) {
        Some(v) => match spec_parse_unsigned(v, u32::MAX as nat) {
            Some(n) => n as u32,
            None => current,
        },
        None => current,
    }
}

/// A stored port: the current value stays when the key is absent or the
/// text is not a decimal `u16`.
#[verifier::opaque]
pub open spec fn load_u16(settings: Seq<(Seq<char>, Seq<char>)>, key: Seq<char>, current: u16) -> u16 {
    match lookup(settings, key) {
        Some(v) => match spec_parse_unsigned(v, u16::MAX as nat) {
            Some(n) => n as u16,
            None => current,
        },
        None => current,
    }
}

/// A stored optional text: empty text is none; the current value stays when
/// the key is absent.
#[verifier::opaque]
pub open spec fn load_opt_str(settings: Seq<(Seq<char>, Seq<char>)>, key: Seq<char>, current: Option<Seq<char>>) -> Option<Seq<char>> {
    match lookup(settings, key) {
        Some(v) => if v.len() == 0 { None } else { Some(v) },
        None => current,
    }
}

/// A stored text: the current value stays when the key is absent.
#[verifier::opaque]
pub open spec fn load_str(settings: Seq<(Seq<char>, Seq<char>)>, key: Seq<char>, current: Seq<char>) -> Seq<char> {
    match lookup(settings, key) {
        Some(v) => v,
        None => current,
    }
}

/// A stored directory: empty text leaves the current value.
#[verifier::opaque]
pub open spec fn load_dir(settings: Seq<(Seq<char>, Seq<char>)>, key: Seq<char>, current: Seq<char>) -> Seq<char> {
    match lookup(settings, key) {
        Some(v) => if v.len() == 0 { current } else { v },
        None => current,
    }
}

/// A stored optional directory: empty text leaves the current value.
#[verifier::opaque]
pub open spec fn load_opt_dir(settings: Seq<(Seq<char>, Seq<char>)>, key: Seq<char>, current: Option<Seq<char>>) -> Option<Seq<char>> {
    match lookup(settings, key) {
        Some(v) => if v.len() == 0 { current } else { Some(v) },
        None => current,
    }
}

/// The settings that stored pairs give, over `base` and with `home_dir`.
pub open spec fn spec_from_settings(base: AppConfigView, s: Seq<(Seq<char>, Seq<char>)>, home_dir: Seq<char>) -> AppConfigView {
    AppConfigView {
        home_dir,
        default_download_path: load_dir(s, "download_path"@, base.default_download_path),
        custom_chunks_dir: load_opt_dir(s, "custom_chunks_dir"@, base.custom_chunks_dir),
        use_custom_chunks_dir: load_bool(s, "use_custom_chunks_dir"@, base.use_custom_chunks_dir),
        max_downloads: load_u32(s, "max_downloads"@, base.max_downloads),
        default_slots: load_u32(s, "default_slots"@, base.default_slots),
        use_slots: load_bool(s, "use_slots"@, base.use_slots),
        chunk_size_multi: load_u32(s, "chunk_size_multi"@, base.chunk_size_multi),
        limit_download_speed: load_bool(s, "limit_download_speed"@, base.limit_download_speed),
        max_download_speed_kbps: load_u32(s, "max_download_speed_kbps"@, base.max_download_speed_kbps),
        use_proxy: load_bool(s, "use_proxy"@, base.use_proxy),
        proxy_host: load_opt_str(s, "proxy_host"@, base.proxy_host),
        proxy_port: load_u16(s, "proxy_port"@, base.proxy_port),
        proxy_user: load_opt_str(s, "proxy_user"@, base.proxy_user),
        proxy_pass: load_opt_str(s, "proxy_pass"@, base.proxy_pass),
        use_smart_proxy: load_bool(s, "use_smart_proxy"@, base.use_smart_proxy),
        smart_proxy_url: load_opt_str(s, "smart_proxy_url"@, base.smart_proxy_url),
        smart_proxy_ban_time_s: load_u32(s, "smartproxy_ban_time"@, base.smart_proxy_ban_time_s),
        smart_proxy_timeout_ms: load_u32(s, "smartproxy_timeout"@, base.smart_proxy_timeout_ms),
        smart_proxy_autorefresh_min: load_u32(s, "smartproxy_autorefresh_time"@, base.smart_proxy_autorefresh_min),
        smart_proxy_random_select: load_bool(s, "random_proxy"@, base.smart_proxy_random_select),
        smart_proxy_reset_slot: load_bool(s, "reset_slot_proxy"@, base.smart_proxy_reset_slot),
        force_smart_proxy: load_bool(s, "force_smart_proxy"@, base.force_smart_proxy),
        use_mega_account_down: load_bool(s, "use_mega_account_down"@, base.use_mega_account_down),
        mega_account_down_email: load_opt_str(s, "mega_account_down_email"@, base.mega_account_down_email),
        dark_mode: load_bool(s, "dark_mode"@, base.dark_mode),
        language: load_str(s, "language"@, base.language),
        init_paused: load_bool(s, "init_paused"@, base.init_paused),
        monitor_clipboard: load_bool(s, "clipboardspy"@, base.monitor_clipboard),
        verify_cbc_mac: load_bool(s, "verify_cbc_mac"@, base.verify_cbc_mac),
        verify_download_file: load_bool(s, "verify_download_file"@, base.verify_download_file),
    }
}

/// The text for a flag.
pub open spec fn bool_text(b: bool) -> Seq<char> {
    if b { "yes"@ } else { "no"@ }
}

/// The text for an optional string (empty for none).
pub open spec fn opt_or_empty(o: Option<Seq<char>>) -> Seq<char> {
    match o {
        Some(v) => v,
        None => Seq::empty(),
    }
}

/// The key of the `i`-th stored setting.
pub open spec fn setting_key(i: int) -> Seq<char> {
    if i == 0 {
        "download_path"@
    } else if i == 1 {
        "custom_chunks_dir"@
    } else if i == 2 {
        "use_custom_chunks_dir"@
    } else if i == 3 {
        "max_downloads"@
    } else if i == 4 {
        "default_slots"@
    } else if i == 5 {
        "use_slots"@
    } else if i == 6 {
        "chunk_size_multi"@
    } else if i == 7 {
        "limit_download_speed"@
    } else if i == 8 {
        "max_download_speed_kbps"@
    } else if i == 9 {
        "use_proxy"@
    } else if i == 10 {
        "proxy_host"@
    } else if i == 11 {
        "proxy_port"@
    } else if i == 12 {
        "proxy_user"@
    } else if i == 13 {
        "proxy_pass"@
    } else if i == 14 {
        "use_smart_proxy"@
    } else if i == 15 {
        "smart_proxy_url"@
    } else if i == 16 {
        "smartproxy_ban_time"@
    } else if i == 17 {
        "smartproxy_timeout"@
    } else if i == 18 {
        "smartproxy_autorefresh_time"@
    } else if i == 19 {
        "random_proxy"@
    } else if i == 20 {
        "reset_slot_proxy"@
    } else if i == 21 {
        "force_smart_proxy"@
    } else if i == 22 {
        "use_mega_account_down"@
    } else if i == 23 {
        "mega_account_down_email"@
    } else if i == 24 {
        "dark_mode"@
    } else if i == 25 {
        "language"@
    } else if i == 26 {
        "init_paused"@
    } else if i == 27 {
        "clipboardspy"@
    } else if i == 28 {
        "verify_cbc_mac"@
    } else {
        "verify_download_file"@
    }
}

/// The stored text of the `i`-th setting.
pub open spec fn setting_value(c: AppConfigView, i: int) -> Seq<char> {
    if i == 0 {
        c.default_download_path
    } else if i == 1 {
        opt_or_empty(c.custom_chunks_dir)
    } else if i == 2 {
        bool_text(c.use_custom_chunks_dir)
    } else if i == 3 {
        decimal(c.max_downloads as nat)
    } else if i == 4 {
        decimal(c.default_slots as nat)
    } else if i == 5 {
        bool_text(c.use_slots)
    } else if i == 6 {
        decimal(c.chunk_size_multi as nat)
    } else if i == 7 {
        bool_text(c.limit_download_speed)
    } else if i == 8 {
        decimal(c.max_download_speed_kbps as nat)
    } else if i == 9 {
        bool_text(c.use_proxy)
    } else if i == 10 {
        opt_or_empty(c.proxy_host)
    } else if i == 11 {
        decimal(c.proxy_port as nat)
    } else if i == 12 {
        opt_or_empty(c.proxy_user)
    } else if i == 13 {
        opt_or_empty(c.proxy_pass)
    } else if i == 14 {
        bool_text(c.use_smart_proxy)
    } else if i == 15 {
        opt_or_empty(c.smart_proxy_url)
    } else if i == 16 {
        decimal(c.smart_proxy_ban_time_s as nat)
    } else if i == 17 {
        decimal(c.smart_proxy_timeout_ms as nat)
    } else if i == 18 {
        decimal(c.smart_proxy_autorefresh_min as nat)
    } else if i == 19 {
        bool_text(c.smart_proxy_random_select)
    } else if i == 20 {
        bool_text(c.smart_proxy_reset_slot)
    } else if i == 21 {
        bool_text(c.force_smart_proxy)
    } else if i == 22 {
        bool_text(c.use_mega_account_down)
    } else if i == 23 {
        opt_or_empty(c.mega_account_down_email)
    } else if i == 24 {
        bool_text(c.dark_mode)
    } else if i == 25 {
        c.language
    } else if i == 26 {
        bool_text(c.init_paused)
    } else if i == 27 {
        bool_text(c.monitor_clipboard)
    } else if i == 28 {
        bool_text(c.verify_cbc_mac)
    } else {
        bool_text(c.verify_download_file)
    }
}

/// Number of stored settings.
pub const SETTINGS_COUNT: usize = 30;

/// The key/value pairs under which the settings are stored, in order.
pub open spec fn spec_to_settings(c: AppConfigView) -> Seq<(Seq<char>, Seq<char>)> {
    Seq::new(30, |i: int| (setting_key(i), setting_value(c, i)))
}

/// The length of a key and its seventh and eighth characters, which tell the stored keys apart.
pub open spec fn key_code(k: Seq<char>) -> (nat, char, char) {
    (k.len(), k[6], k[7])
}

/// The position of the stored key with this code (30 for none).
pub open spec fn key_index(k: Seq<char>) -> int {
    let code = key_code(k);
    if code == (13nat, 'a', 'd') {
        0
    } else if code == (17nat, '_', 'c') {
        1
    } else if code == (21nat, 's', 't') {
        2
    } else if code == (13nat, 'w', 'n') {
        3
    } else if code == (13nat, 't', '_') {
        4
    } else if code == (9nat, 'o', 't') {
        5
    } else if code == (16nat, 's', 'i') {
        6
    } else if code == (20nat, 'd', 'o') {
        7
    } else if code == (23nat, 'w', 'n') {
        8
    } else if code == (9nat, 'o', 'x') {
        9
    } else if code == (10nat, 'h', 'o') {
        10
    } else if code == (10nat, 'p', 'o') {
        11
    } else if code == (10nat, 'u', 's') {
        12
    } else if code == (10nat, 'p', 'a') {
        13
    } else if code == (15nat, 'a', 'r') {
        14
    } else if code == (15nat, 'p', 'r') {
        15
    } else if code == (19nat, 'r', 'o') {
        16
    } else if code == (18nat, 'r', 'o') {
        17
    } else if code == (27nat, 'r', 'o') {
        18
    } else if code == (12nat, '_', 'p') {
        19
    } else if code == (16nat, 's', 'l') {
        20
    } else if code == (17nat, 's', 'm') {
        21
    } else if code == (21nat, 'g', 'a') {
        22
    } else if code == (23nat, 'c', 'c') {
        23
    } else if code == (9nat, 'o', 'd') {
        24
    } else if code == (8nat, 'g', 'e') {
        25
    } else if code == (11nat, 'a', 'u') {
        26
    } else if code == (12nat, 'a', 'r') {
        27
    } else if code == (14nat, '_', 'c') {
        28
    } else if code == (20nat, '_', 'd') {
        29
    } else {
        30
    }
}

proof fn lemma_key_index()
    ensures
        forall|i: int| 0 <= i < 30 ==> key_index(#[trigger] setting_key(i)) == i,
{
    reveal_strlit("download_path");
    reveal_strlit("custom_chunks_dir");
    reveal_strlit("use_custom_chunks_dir");
    reveal_strlit("max_downloads");
    reveal_strlit("default_slots");
    reveal_strlit("use_slots");
    reveal_strlit("chunk_size_multi");
    reveal_strlit("limit_download_speed");
    reveal_strlit("max_download_speed_kbps");
    reveal_strlit("use_proxy");
    reveal_strlit("proxy_host");
    reveal_strlit("proxy_port");
    reveal_strlit("proxy_user");
    reveal_strlit("proxy_pass");
    reveal_strlit("use_smart_proxy");
    reveal_strlit("smart_proxy_url");
    reveal_strlit("smartproxy_ban_time");
    reveal_strlit("smartproxy_timeout");
    reveal_strlit("smartproxy_autorefresh_time");
    reveal_strlit("random_proxy");
    reveal_strlit("reset_slot_proxy");
    reveal_strlit("force_smart_proxy");
    reveal_strlit("use_mega_account_down");
    reveal_strlit("mega_account_down_email");
    reveal_strlit("dark_mode");
    reveal_strlit("language");
    reveal_strlit("init_paused");
    reveal_strlit("clipboardspy");
    reveal_strlit("verify_cbc_mac");
    reveal_strlit("verify_download_file");
    assert(key_index(setting_key(0)) == 0);
    assert(key_index(setting_key(1)) == 1);
    assert(key_index(setting_key(2)) == 2);
    assert(key_index(setting_key(3)) == 3);
    assert(key_index(setting_key(4)) == 4);
    assert(key_index(setting_key(5)) == 5);
    assert(key_index(setting_key(6)) == 6);
    assert(key_index(setting_key(7)) == 7);
    assert(key_index(setting_key(8)) == 8);
    assert(key_index(setting_key(9)) == 9);
    assert(key_index(setting_key(10)) == 10);
    assert(key_index(setting_key(11)) == 11);
    assert(key_index(setting_key(12)) == 12);
    assert(key_index(setting_key(13)) == 13);
    assert(key_index(setting_key(14)) == 14);
    assert(key_index(setting_key(15)) == 15);
    assert(key_index(setting_key(16)) == 16);
    assert(key_index(setting_key(17)) == 17);
    assert(key_index(setting_key(18)) == 18);
    assert(key_index(setting_key(19)) == 19);
    assert(key_index(setting_key(20)) == 20);
    assert(key_index(setting_key(21)) == 21);
    assert(key_index(setting_key(22)) == 22);
    assert(key_index(setting_key(23)) == 23);
    assert(key_index(setting_key(24)) == 24);
    assert(key_index(setting_key(25)) == 25);
    assert(key_index(setting_key(26)) == 26);
    assert(key_index(setting_key(27)) == 27);
    assert(key_index(setting_key(28)) == 28);
    assert(key_index(setting_key(29)) == 29);
}

/// The stored keys are pairwise distinct.
pub proof fn lemma_setting_keys_distinct()
    ensures
        forall|i: int, j: int| 0 <= i < 30 && 0 <= j < 30 && i != j ==> setting_key(i) != setting_key(j),
{
    lemma_key_index();
    assert forall|i: int, j: int| 0 <= i < 30 && 0 <= j < 30 && i != j implies setting_key(i) != setting_key(j) by {
        if setting_key(i) == setting_key(j) {
            assert(key_index(setting_key(i)) == key_index(setting_key(j)));
        }
    }
}

proof fn lemma_lookup_at(s: Seq<(Seq<char>, Seq<char>)>, i: int)
    requires
        0 <= i < s.len(),
        forall|j: int| 0 <= j < i ==> s[j].0 != s[i].0,
    ensures
        lookup(s, s[i].0) == Some(s[i].1),
    decreases i,
{
    reveal(lookup);
    if i > 0 {
        let t = s.drop_first();
        assert forall|j: int| 0 <= j < i - 1 implies #[trigger] t[j].0 != t[i - 1].0 by {
            assert(t[j] == s[j + 1]);
        }
        lemma_lookup_at(t, i - 1);
        assert(s[0].0 != s[i].0);
    }
}

/// The stored value of each key is the one it was stored with.
proof fn lemma_stored_lookup(c: AppConfigView, i: int)
    requires
        0 <= i < 30,
    ensures
        lookup(spec_to_settings(c), setting_key(i)) == Some(setting_value(c, i)),
{
    let s = spec_to_settings(c);
    lemma_setting_keys_distinct();
    assert forall|j: int| 0 <= j < i implies s[j].0 != s[i].0 by {
        assert(setting_key(j) != setting_key(i));
    }
    lemma_lookup_at(s, i);
}

/// A number stored in decimal reads back as itself.
proof fn lemma_number_roundtrip(n: nat, max: nat)
    requires
        n <= max,
    ensures
        spec_parse_unsigned(decimal(n), max) == Some(n),
{
    lemma_parse_decimal_roundtrip(n);
}

/// A flag stored as `yes` or `no` reads back as itself.
proof fn lemma_flag_roundtrip(b: bool)
    ensures
        (bool_text(b) == "yes"@ || bool_text(b) == "true"@ || bool_text(b) == "1"@) == b,
{
    reveal_strlit("yes");
    reveal_strlit("no");
    reveal_strlit("true");
    reveal_strlit("1");
    assert("no"@.len() == 2 && "yes"@.len() == 3 && "true"@.len() == 4 && "1"@.len() == 1);
    if !b {
        assert("no"@ != "yes"@);
        assert("no"@ != "true"@);
        assert("no"@ != "1"@);
    }
}

/// Settings whose texts survive being stored: the download directory is
/// not empty, no optional text is set to the empty text (it would read back
/// as unset), and an unset custom chunks directory is unset in the settings
/// loaded over too (its empty text leaves that one's value).
pub open spec fn storable(c: AppConfigView, base: AppConfigView) -> bool {
    &&& c.default_download_path.len() > 0
    &&& (c.custom_chunks_dir matches Some(d) ==> d.len() > 0)
    &&& (c.custom_chunks_dir is None ==> base.custom_chunks_dir is None)
    &&& (c.proxy_host matches Some(h) ==> h.len() > 0)
    &&& (c.proxy_user matches Some(u) ==> u.len() > 0)
    &&& (c.proxy_pass matches Some(p) ==> p.len() > 0)
    &&& (c.smart_proxy_url matches Some(u) ==> u.len() > 0)
    &&& (c.mega_account_down_email matches Some(e) ==> e.len() > 0)
}

proof fn lemma_load_bool_stored(s: Seq<(Seq<char>, Seq<char>)>, key: Seq<char>, b: bool, cur: bool)
    requires
        lookup(s, key) == Some(bool_text(b)),
    ensures
        load_bool(s, key, cur) == b,
{
    reveal(load_bool);
    lemma_flag_roundtrip(b);
}

proof fn lemma_load_u32_stored(s: Seq<(Seq<char>, Seq<char>)>, key: Seq<char>, n: u32, cur: u32)
    requires
        lookup(s, key) == Some(decimal(n as nat)),
    ensures
        load_u32(s, key, cur) == n,
{
    reveal(load_u32);
    lemma_number_roundtrip(n as nat, u32::MAX as nat);
}

proof fn lemma_load_u16_stored(s: Seq<(Seq<char>, Seq<char>)>, key: Seq<char>, n: u16, cur: u16)
    requires
        lookup(s, key) == Some(decimal(n as nat)),
    ensures
        load_u16(s, key, cur) == n,
{
    reveal(load_u16);
    lemma_number_roundtrip(n as nat, u16::MAX as nat);
}

proof fn lemma_load_opt_str_stored(s: Seq<(Seq<char>, Seq<char>)>, key: Seq<char>, o: Option<Seq<char>>, cur: Option<Seq<char>>)
    requires
        lookup(s, key) == Some(opt_or_empty(o)),
        o matches Some(v) ==> v.len() > 0,
    ensures
        load_opt_str(s, key, cur) == o,
{
    reveal(load_opt_str);
}

proof fn lemma_load_str_stored(s: Seq<(Seq<char>, Seq<char>)>, key: Seq<char>, v: Seq<char>, cur: Seq<char>)
    requires
        lookup(s, key) == Some(v),
    ensures
        load_str(s, key, cur) == v,
{
    reveal(load_str);
}

proof fn lemma_load_dir_stored(s: Seq<(Seq<char>, Seq<char>)>, key: Seq<char>, v: Seq<char>, cur: Seq<char>)
    requires
        lookup(s, key) == Some(v),
        v.len() > 0,
    ensures
        load_dir(s, key, cur) == v,
{
    reveal(load_dir);
}

proof fn lemma_load_opt_dir_stored(s: Seq<(Seq<char>, Seq<char>)>, key: Seq<char>, o: Option<Seq<char>>, cur: Option<Seq<char>>)
    requires
        lookup(s, key) == Some(opt_or_empty(o)),
        o matches Some(v) ==> v.len() > 0,
        o is None ==> cur is None,
    ensures
        load_opt_dir(s, key, cur) == o,
{
    reveal(load_opt_dir);
}

proof fn lemma_roundtrip_fields_1(c: AppConfigView, base: AppConfigView)
    requires
        storable(c, base),
    ensures
        spec_from_settings(base, spec_to_settings(c), c.home_dir).default_download_path == c.default_download_path,
        spec_from_settings(base, spec_to_settings(c), c.home_dir).custom_chunks_dir == c.custom_chunks_dir,
        spec_from_settings(base, spec_to_settings(c), c.home_dir).use_custom_chunks_dir == c.use_custom_chunks_dir,
        spec_from_settings(base, spec_to_settings(c), c.home_dir).max_downloads == c.max_downloads,
        spec_from_settings(base, spec_to_settings(c), c.home_dir).default_slots == c.default_slots,
        spec_from_settings(base, spec_to_settings(c), c.home_dir).use_slots == c.use_slots,
        spec_from_settings(base, spec_to_settings(c), c.home_dir).chunk_size_multi == c.chunk_size_multi,
        spec_from_settings(base, spec_to_settings(c), c.home_dir).limit_download_speed == c.limit_download_speed,
{
    let s = spec_to_settings(c);
    lemma_stored_lookup(c, 0);
    lemma_load_dir_stored(s, setting_key(0), c.default_download_path, base.default_download_path);
    lemma_stored_lookup(c, 1);
    lemma_load_opt_dir_stored(s, setting_key(1), c.custom_chunks_dir, base.custom_chunks_dir);
    lemma_stored_lookup(c, 2);
    lemma_load_bool_stored(s, setting_key(2), c.use_custom_chunks_dir, base.use_custom_chunks_dir);
    lemma_stored_lookup(c, 3);
    lemma_load_u32_stored(s, setting_key(3), c.max_downloads, base.max_downloads);
    lemma_stored_lookup(c, 4);
    lemma_load_u32_stored(s, setting_key(4), c.default_slots, base.default_slots);
    lemma_stored_lookup(c, 5);
    lemma_load_bool_stored(s, setting_key(5), c.use_slots, base.use_slots);
    lemma_stored_lookup(c, 6);
    lemma_load_u32_stored(s, setting_key(6), c.chunk_size_multi, base.chunk_size_multi);
    lemma_stored_lookup(c, 7);
    lemma_load_bool_stored(s, setting_key(7), c.limit_download_speed, base.limit_download_speed);
}

proof fn lemma_roundtrip_fields_2(c: AppConfigView, base: AppConfigView)
    requires
        storable(c, base),
    ensures
        spec_from_settings(base, spec_to_settings(c), c.home_dir).max_download_speed_kbps == c.max_download_speed_kbps,
        spec_from_settings(base, spec_to_settings(c), c.home_dir).use_proxy == c.use_proxy,
        spec_from_settings(base, spec_to_settings(c), c.home_dir).proxy_host == c.proxy_host,
        spec_from_settings(base, spec_to_settings(c), c.home_dir).proxy_port == c.proxy_port,
        spec_from_settings(base, spec_to_settings(c), c.home_dir).proxy_user == c.proxy_user,
        spec_from_settings(base, spec_to_settings(c), c.home_dir).proxy_pass == c.proxy_pass,
        spec_from_settings(base, spec_to_settings(c), c.home_dir).use_smart_proxy == c.use_smart_proxy,
        spec_from_settings(base, spec_to_settings(c), c.home_dir).smart_proxy_url == c.smart_proxy_url,
{
    let s = spec_to_settings(c);
    lemma_stored_lookup(c, 8);
    lemma_load_u32_stored(s, setting_key(8), c.max_download_speed_kbps, base.max_download_speed_kbps);
    lemma_stored_lookup(c, 9);
    lemma_load_bool_stored(s, setting_key(9), c.use_proxy, base.use_proxy);
    lemma_stored_lookup(c, 10);
    lemma_load_opt_str_stored(s, setting_key(10), c.proxy_host, base.proxy_host);
    lemma_stored_lookup(c, 11);
    lemma_load_u16_stored(s, setting_key(11), c.proxy_port, base.proxy_port);
    lemma_stored_lookup(c, 12);
    lemma_load_opt_str_stored(s, setting_key(12), c.proxy_user, base.proxy_user);
    lemma_stored_lookup(c, 13);
    lemma_load_opt_str_stored(s, setting_key(13), c.proxy_pass, base.proxy_pass);
    lemma_stored_lookup(c, 14);
    lemma_load_bool_stored(s, setting_key(14), c.use_smart_proxy, base.use_smart_proxy);
    lemma_stored_lookup(c, 15);
    lemma_load_opt_str_stored(s, setting_key(15), c.smart_proxy_url, base.smart_proxy_url);
}

proof fn lemma_roundtrip_fields_3(c: AppConfigView, base: AppConfigView)
    requires
        storable(c, base),
    ensures
        spec_from_settings(base, spec_to_settings(c), c.home_dir).smart_proxy_ban_time_s == c.smart_proxy_ban_time_s,
        spec_from_settings(base, spec_to_settings(c), c.home_dir).smart_proxy_timeout_ms == c.smart_proxy_timeout_ms,
        spec_from_settings(base, spec_to_settings(c), c.home_dir).smart_proxy_autorefresh_min == c.smart_proxy_autorefresh_min,
        spec_from_settings(base, spec_to_settings(c), c.home_dir).smart_proxy_random_select == c.smart_proxy_random_select,
        spec_from_settings(base, spec_to_settings(c), c.home_dir).smart_proxy_reset_slot == c.smart_proxy_reset_slot,
        spec_from_settings(base, spec_to_settings(c), c.home_dir).force_smart_proxy == c.force_smart_proxy,
        spec_from_settings(base, spec_to_settings(c), c.home_dir).use_mega_account_down == c.use_mega_account_down,
        spec_from_settings(base, spec_to_settings(c), c.home_dir).mega_account_down_email == c.mega_account_down_email,
{
    let s = spec_to_settings(c);
    lemma_stored_lookup(c, 16);
    lemma_load_u32_stored(s, setting_key(16), c.smart_proxy_ban_time_s, base.smart_proxy_ban_time_s);
    lemma_stored_lookup(c, 17);
    lemma_load_u32_stored(s, setting_key(17), c.smart_proxy_timeout_ms, base.smart_proxy_timeout_ms);
    lemma_stored_lookup(c, 18);
    lemma_load_u32_stored(s, setting_key(18), c.smart_proxy_autorefresh_min, base.smart_proxy_autorefresh_min);
    lemma_stored_lookup(c, 19);
    lemma_load_bool_stored(s, setting_key(19), c.smart_proxy_random_select, base.smart_proxy_random_select);
    lemma_stored_lookup(c, 20);
    lemma_load_bool_stored(s, setting_key(20), c.smart_proxy_reset_slot, base.smart_proxy_reset_slot);
    lemma_stored_lookup(c, 21);
    lemma_load_bool_stored(s, setting_key(21), c.force_smart_proxy, base.force_smart_proxy);
    lemma_stored_lookup(c, 22);
    lemma_load_bool_stored(s, setting_key(22), c.use_mega_account_down, base.use_mega_account_down);
    lemma_stored_lookup(c, 23);
    lemma_load_opt_str_stored(s, setting_key(23), c.mega_account_down_email, base.mega_account_down_email);
}

proof fn lemma_roundtrip_fields_4(c: AppConfigView, base: AppConfigView)
    requires
        storable(c, base),
    ensures
        spec_from_settings(base, spec_to_settings(c), c.home_dir).dark_mode == c.dark_mode,
        spec_from_settings(base, spec_to_settings(c), c.home_dir).language == c.language,
        spec_from_settings(base, spec_to_settings(c), c.home_dir).init_paused == c.init_paused,
        spec_from_settings(base, spec_to_settings(c), c.home_dir).monitor_clipboard == c.monitor_clipboard,
        spec_from_settings(base, spec_to_settings(c), c.home_dir).verify_cbc_mac == c.verify_cbc_mac,
        spec_from_settings(base, spec_to_settings(c), c.home_dir).verify_download_file == c.verify_download_file,
{
    let s = spec_to_settings(c);
    lemma_stored_lookup(c, 24);
    lemma_load_bool_stored(s, setting_key(24), c.dark_mode, base.dark_mode);
    lemma_stored_lookup(c, 25);
    lemma_load_str_stored(s, setting_key(25), c.language, base.language);
    lemma_stored_lookup(c, 26);
    lemma_load_bool_stored(s, setting_key(26), c.init_paused, base.init_paused);
    lemma_stored_lookup(c, 27);
    lemma_load_bool_stored(s, setting_key(27), c.monitor_clipboard, base.monitor_clipboard);
    lemma_stored_lookup(c, 28);
    lemma_load_bool_stored(s, setting_key(28), c.verify_cbc_mac, base.verify_cbc_mac);
    lemma_stored_lookup(c, 29);
    lemma_load_bool_stored(s, setting_key(29), c.verify_download_file, base.verify_download_file);
}

/// Loading stored settings gives back the settings that were stored, over
/// any settings loaded onto, where their texts survive being stored.
pub proof fn lemma_settings_roundtrip(c: AppConfigView, base: AppConfigView)
    requires
        storable(c, base),
    ensures
        spec_from_settings(base, spec_to_settings(c), c.home_dir) == c,
{
    lemma_roundtrip_fields_1(c, base);
    lemma_roundtrip_fields_2(c, base);
    lemma_roundtrip_fields_3(c, base);
    lemma_roundtrip_fields_4(c, base);
}

/// A key/value store after the pairs are written to it in order, each
/// replacing what the store held under its key.
pub open spec fn store_all(store: Map<Seq<char>, Seq<char>>, pairs: Seq<(Seq<char>, Seq<char>)>) -> Map<Seq<char>, Seq<char>>
    decreases pairs.len(),
{
    if pairs.len() == 0 {
        store
    } else {
        store_all(store.insert(pairs[0].0, pairs[0].1), pairs.drop_first())
    }
}

proof fn lemma_lookup_absent(pairs: Seq<(Seq<char>, Seq<char>)>, key: Seq<char>)
    requires
        forall|j: int| 0 <= j < pairs.len() ==> #[trigger] pairs[j].0 != key,
    ensures
        lookup(pairs, key) is None,
    decreases pairs.len(),
{
    reveal(lookup);
    if pairs.len() > 0 {
        let t = pairs.drop_first();
        assert forall|j: int| 0 <= j < t.len() implies #[trigger] t[j].0 != key by {
            assert(t[j] == pairs[j + 1]);
        }
        lemma_lookup_absent(t, key);
    }
}

/// Writing pairs with distinct keys sets each of their keys to its value
/// and leaves every other key as it was.
proof fn lemma_store_all(store: Map<Seq<char>, Seq<char>>, pairs: Seq<(Seq<char>, Seq<char>)>, key: Seq<char>)
    requires
        forall|i: int, j: int| 0 <= i < j < pairs.len() ==> pairs[i].0 != pairs[j].0,
    ensures
        match lookup(pairs, key) {
            Some(v) => store_all(store, pairs).dom().contains(key) && store_all(store, pairs)[key] == v,
            None => store_all(store, pairs).dom().contains(key) == store.dom().contains(key)
                && store_all(store, pairs)[key] == store[key],
        },
    decreases pairs.len(),
{
    reveal(lookup);
    if pairs.len() > 0 {
        let t = pairs.drop_first();
        assert forall|i: int, j: int| 0 <= i < j < t.len() implies t[i].0 != t[j].0 by {
            assert(t[i] == pairs[i + 1] && t[j] == pairs[j + 1]);
        }
        lemma_store_all(store.insert(pairs[0].0, pairs[0].1), t, key);
        if key == pairs[0].0 {
            assert forall|j: int| 0 <= j < t.len() implies #[trigger] t[j].0 != key by {
                assert(t[j] == pairs[j + 1]);
            }
            lemma_lookup_absent(t, key);
        }
    }
}

/// Saving settings into a store of settings: each of the stored keys then
/// holds the text of its setting, and every other key keeps what it held.
pub proof fn lemma_save_overrides(store: Map<Seq<char>, Seq<char>>, c: AppConfigView, key: Seq<char>)
    ensures
        forall|i: int| 0 <= i < 30 ==> #[trigger] lookup(spec_to_settings(c), setting_key(i)) == Some(setting_value(c, i)),
        (forall|i: int| 0 <= i < 30 ==> #[trigger] setting_key(i) != key) ==> lookup(spec_to_settings(c), key) is None,
        match lookup(spec_to_settings(c), key) {
            Some(v) => store_all(store, spec_to_settings(c)).dom().contains(key)
                && store_all(store, spec_to_settings(c))[key] == v,
            None => store_all(store, spec_to_settings(c)).dom().contains(key) == store.dom().contains(key)
                && store_all(store, spec_to_settings(c))[key] == store[key],
        },
{
    let s = spec_to_settings(c);
    lemma_setting_keys_distinct();
    assert forall|i: int, j: int| 0 <= i < j < s.len() implies s[i].0 != s[j].0 by {
        assert(setting_key(i) != setting_key(j));
    }
    assert forall|i: int| 0 <= i < 30 implies #[trigger] lookup(s, setting_key(i)) == Some(setting_value(c, i)) by {
        lemma_stored_lookup(c, i);
    }
    if forall|i: int| 0 <= i < 30 ==> #[trigger] setting_key(i) != key {
        assert forall|j: int| 0 <= j < s.len() implies #[trigger] s[j].0 != key by {
            assert(s[j].0 == setting_key(j));
        }
        lemma_lookup_absent(s, key);
    }
    lemma_store_all(store, s, key);
}

/// The value stored under `key`, if any.
fn find_setting<'a>(settings: &'a [(String, String)], key: &str) -> (r: Option<&'a String>)
    ensures
        r is Some <==> lookup(settings_view(settings@), key@) is Some,
        r matches Some(v) ==> lookup(settings_view(settings@), key@) == Some(v@),
{
    let k = String::from_str(key);
    let mut i: usize = 0;
    proof {
        reveal(lookup);
        assert(settings_view(settings@).subrange(0, settings@.len() as int) =~= settings_view(settings@));
    }
    while i < settings.len()
        invariant
            k@ == key@,
            i <= settings@.len(),
            lookup(settings_view(settings@), key@) == lookup(settings_view(settings@).subrange(i as int, settings@.len() as int), key@),
        decreases settings@.len() - i,
    {
        let ghost sv = settings_view(settings@);
        assert(sv.subrange(i as int, settings@.len() as int)[0] == (settings@[i as int].0@, settings@[i as int].1@));
        proof {
            reveal(lookup);
        }
        if settings[i].0 == k {
            return Some(&settings[i].1);
        }
        assert(sv.subrange(i as int, settings@.len() as int).drop_first() =~= sv.subrange(i + 1, settings@.len() as int));
        i = i + 1;
    }
    None
}

fn text_is(v: &String, lit: &str) -> (r: bool)
    ensures
        r == (v@ == lit@),
{
    let l = String::from_str(lit);
    *v == l
}

/// Reads a stored flag.
fn read_bool(settings: &[(String, String)], key: &str, current: bool) -> (r: bool)
    ensures
        r == load_bool(settings_view(settings@), key@, current),
{
    proof {
        reveal(load_bool);
    }
    match find_setting(settings, key) {
        Some(v) => text_is(v, "yes") || text_is(v, "true") || text_is(v, "1"),
        None => current,
    }
}

/// Reads a stored `u32`.
fn read_u32(settings: &[(String, String)], key: &str, current: u32) -> (r: u32)
    ensures
        r == load_u32(settings_view(settings@), key@, current),
{
    proof {
        reveal(load_u32);
    }
    match find_setting(settings, key) {
        Some(v) => {
            let chars = str_chars(v.as_str());
            match parse_u32(chars.as_slice()) {
                Some(n) => n,
                None => current,
            }
        },
        None => current,
    }
}

/// Reads a stored `u16`.
fn read_u16(settings: &[(String, String)], key: &str, current: u16) -> (r: u16)
    ensures
        r == load_u16(settings_view(settings@), key@, current),
{
    proof {
        reveal(load_u16);
    }
    match find_setting(settings, key) {
        Some(v) => {
            let chars = str_chars(v.as_str());
            match parse_u16(chars.as_slice()) {
                Some(n) => n,
                None => current,
            }
        },
        None => current,
    }
}

/// Reads a stored optional text.
fn read_opt_str(settings: &[(String, String)], key: &str, current: Option<String>) -> (r: Option<String>)
    ensures
        opt_text(r) == load_opt_str(settings_view(settings@), key@, opt_text(current)),
{
    proof {
        reveal(load_opt_str);
    }
    match find_setting(settings, key) {
        Some(v) => if v.as_str().is_empty() { None } else { Some(v.clone()) },
        None => current,
    }
}

/// Reads a stored text.
fn read_str(settings: &[(String, String)], key: &str, current: String) -> (r: String)
    ensures
        r@ == load_str(settings_view(settings@), key@, current@),
{
    proof {
        reveal(load_str);
    }
    match find_setting(settings, key) {
        Some(v) => v.clone(),
        None => current,
    }
}

/// Reads a stored directory.
fn read_dir(settings: &[(String, String)], key: &str, current: String) -> (r: String)
    ensures
        r@ == load_dir(settings_view(settings@), key@, current@),
{
    proof {
        reveal(load_dir);
    }
    match find_setting(settings, key) {
        Some(v) => if v.as_str().is_empty() { current } else { v.clone() },
        None => current,
    }
}

/// Reads a stored optional directory.
fn read_opt_dir(settings: &[(String, String)], key: &str, current: Option<String>) -> (r: Option<String>)
    ensures
        opt_text(r) == load_opt_dir(settings_view(settings@), key@, opt_text(current)),
{
    proof {
        reveal(load_opt_dir);
    }
    match find_setting(settings, key) {
        Some(v) => if v.as_str().is_empty() { current } else { Some(v.clone()) },
        None => current,
    }
}

/// The decimal text of a number.
fn decimal_string(n: u64) -> (r: String)
    ensures
        r@ == decimal(n as nat),
{
    let mut v: Vec<char> = Vec::new();
    push_decimal(&mut v, n);
    assert(v@ =~= decimal(n as nat));
    chars_to_string(v.as_slice())
}

/// The stored text of a flag.
fn bool_string(b: bool) -> (r: String)
    ensures
        r@ == bool_text(b),
{
    if b { String::from_str("yes") } else { String::from_str("no") }
}

/// The stored text of an optional string.
fn opt_string(o: &Option<String>) -> (r: String)
    ensures
        r@ == opt_or_empty(opt_text(*o)),
{
    match o {
        Some(v) => v.clone(),
        None => String::new(),
    }
}

/// A key/value pair.
fn setting(key: &str, value: String) -> (r: (String, String))
    ensures
        r.0@ == key@,
        r.1@ == value@,
{
    (String::from_str(key), value)
}

impl AppConfig {
    /// The default settings for a home directory; downloads go to its
    /// `Downloads` directory.
    pub fn default_for_home(home_dir: &str) -> (r: AppConfig)
        ensures
            r@ == spec_defaults(home_dir@, r.default_download_path@),
            plain_dir(home_dir@) ==> joined(home_dir@, "Downloads"@, r.default_download_path@),
    {
        proof {
            reveal_strlit("Downloads");
            assert(single_component("Downloads"@)) by {
            assert("Downloads"@ =~= seq!['D', 'o', 'w', 'n', 'l', 'o', 'a', 'd', 's']);
            assert(!("Downloads"@ =~= seq!['.']));
            assert(!("Downloads"@ =~= seq!['.', '.']));
        }
        }
        let download = join_component(home_dir, "Downloads");
        Self::with_paths(String::from_str(home_dir), download)
    }

    /// The default settings for a home directory and a download directory.
    pub fn with_paths(home_dir: String, default_download_path: String) -> (r: AppConfig)
        ensures
            r@ == spec_defaults(home_dir@, default_download_path@),
    {
        AppConfig {
            home_dir,
            default_download_path,
            custom_chunks_dir: None,
            use_custom_chunks_dir: false,
            max_downloads: SIM_TRANSFERENCES_DEFAULT,
            default_slots: WORKERS_DEFAULT,
            use_slots: true,
            chunk_size_multi: CHUNK_SIZE_MULTI,
            limit_download_speed: false,
            max_download_speed_kbps: 0,
            use_proxy: false,
            proxy_host: None,
            proxy_port: 8080,
            proxy_user: None,
            proxy_pass: None,
            use_smart_proxy: false,
            smart_proxy_url: None,
            smart_proxy_ban_time_s: SMART_PROXY_BAN_TIME_S,
            smart_proxy_timeout_ms: SMART_PROXY_TIMEOUT_MS,
            smart_proxy_autorefresh_min: SMART_PROXY_AUTOREFRESH_MIN,
            smart_proxy_random_select: true,
            smart_proxy_reset_slot: true,
            force_smart_proxy: false,
            use_mega_account_down: false,
            mega_account_down_email: None,
            dark_mode: false,
            language: String::from_str("EN"),
            init_paused: false,
            monitor_clipboard: true,
            verify_cbc_mac: false,
            verify_download_file: false,
        }
    }

    /// The key/value pairs under which these settings are stored.
    #[verifier::rlimit(60)]
    pub fn to_settings(&self) -> (r: Vec<(String, String)>)
        ensures
            settings_view(r@) == spec_to_settings(self@),
    {
        let mut v: Vec<(String, String)> = Vec::new();
        v.push(setting("download_path", self.default_download_path.clone()));
        v.push(setting("custom_chunks_dir", opt_string(&self.custom_chunks_dir)));
        v.push(setting("use_custom_chunks_dir", bool_string(self.use_custom_chunks_dir)));
        v.push(setting("max_downloads", decimal_string(self.max_downloads as u64)));
        v.push(setting("default_slots", decimal_string(self.default_slots as u64)));
        v.push(setting("use_slots", bool_string(self.use_slots)));
        v.push(setting("chunk_size_multi", decimal_string(self.chunk_size_multi as u64)));
        v.push(setting("limit_download_speed", bool_string(self.limit_download_speed)));
        v.push(setting("max_download_speed_kbps", decimal_string(self.max_download_speed_kbps as u64)));
        v.push(setting("use_proxy", bool_string(self.use_proxy)));
        v.push(setting("proxy_host", opt_string(&self.proxy_host)));
        v.push(setting("proxy_port", decimal_string(self.proxy_port as u64)));
        v.push(setting("proxy_user", opt_string(&self.proxy_user)));
        v.push(setting("proxy_pass", opt_string(&self.proxy_pass)));
        v.push(setting("use_smart_proxy", bool_string(self.use_smart_proxy)));
        v.push(setting("smart_proxy_url", opt_string(&self.smart_proxy_url)));
        v.push(setting("smartproxy_ban_time", decimal_string(self.smart_proxy_ban_time_s as u64)));
        v.push(setting("smartproxy_timeout", decimal_string(self.smart_proxy_timeout_ms as u64)));
        v.push(setting("smartproxy_autorefresh_time", decimal_string(self.smart_proxy_autorefresh_min as u64)));
        v.push(setting("random_proxy", bool_string(self.smart_proxy_random_select)));
        v.push(setting("reset_slot_proxy", bool_string(self.smart_proxy_reset_slot)));
        v.push(setting("force_smart_proxy", bool_string(self.force_smart_proxy)));
        v.push(setting("use_mega_account_down", bool_string(self.use_mega_account_down)));
        v.push(setting("mega_account_down_email", opt_string(&self.mega_account_down_email)));
        v.push(setting("dark_mode", bool_string(self.dark_mode)));
        v.push(setting("language", self.language.clone()));
        v.push(setting("init_paused", bool_string(self.init_paused)));
        v.push(setting("clipboardspy", bool_string(self.monitor_clipboard)));
        v.push(setting("verify_cbc_mac", bool_string(self.verify_cbc_mac)));
        v.push(setting("verify_download_file", bool_string(self.verify_download_file)));
        assert(settings_view(v@) =~= spec_to_settings(self@));
        v
    }

    /// The settings that stored key/value pairs give, starting from `base`,
    /// with `home_dir` as the home directory.
    #[verifier::rlimit(60)]
    pub fn from_settings(base: AppConfig, settings: &[(String, String)], home_dir: String) -> (r: AppConfig)
        ensures
            r@ == spec_from_settings(base@, settings_view(settings@), home_dir@),
    {
        let s = settings;
        let default_download_path = read_dir(s, "download_path", base.default_download_path);
        let custom_chunks_dir = read_opt_dir(s, "custom_chunks_dir", base.custom_chunks_dir);
        let use_custom_chunks_dir = read_bool(s, "use_custom_chunks_dir", base.use_custom_chunks_dir);
        let max_downloads = read_u32(s, "max_downloads", base.max_downloads);
        let default_slots = read_u32(s, "default_slots", base.default_slots);
        let use_slots = read_bool(s, "use_slots", base.use_slots);
        let chunk_size_multi = read_u32(s, "chunk_size_multi", base.chunk_size_multi);
        let limit_download_speed = read_bool(s, "limit_download_speed", base.limit_download_speed);
        let max_download_speed_kbps = read_u32(s, "max_download_speed_kbps", base.max_download_speed_kbps);
        let use_proxy = read_bool(s, "use_proxy", base.use_proxy);
        let proxy_host = read_opt_str(s, "proxy_host", base.proxy_host);
        let proxy_port = read_u16(s, "proxy_port", base.proxy_port);
        let proxy_user = read_opt_str(s, "proxy_user", base.proxy_user);
        let proxy_pass = read_opt_str(s, "proxy_pass", base.proxy_pass);
        let use_smart_proxy = read_bool(s, "use_smart_proxy", base.use_smart_proxy);
        let smart_proxy_url = read_opt_str(s, "smart_proxy_url", base.smart_proxy_url);
        let smart_proxy_ban_time_s = read_u32(s, "smartproxy_ban_time", base.smart_proxy_ban_time_s);
        let smart_proxy_timeout_ms = read_u32(s, "smartproxy_timeout", base.smart_proxy_timeout_ms);
        let smart_proxy_autorefresh_min = read_u32(s, "smartproxy_autorefresh_time", base.smart_proxy_autorefresh_min);
        let smart_proxy_random_select = read_bool(s, "random_proxy", base.smart_proxy_random_select);
        let smart_proxy_reset_slot = read_bool(s, "reset_slot_proxy", base.smart_proxy_reset_slot);
        let force_smart_proxy = read_bool(s, "force_smart_proxy", base.force_smart_proxy);
        let use_mega_account_down = read_bool(s, "use_mega_account_down", base.use_mega_account_down);
        let mega_account_down_email = read_opt_str(s, "mega_account_down_email", base.mega_account_down_email);
        let dark_mode = read_bool(s, "dark_mode", base.dark_mode);
        let language = read_str(s, "language", base.language);
        let init_paused = read_bool(s, "init_paused", base.init_paused);
        let monitor_clipboard = read_bool(s, "clipboardspy", base.monitor_clipboard);
        let verify_cbc_mac = read_bool(s, "verify_cbc_mac", base.verify_cbc_mac);
        let verify_download_file = read_bool(s, "verify_download_file", base.verify_download_file);
        AppConfig {
            home_dir,
            default_download_path,
            custom_chunks_dir,
            use_custom_chunks_dir,
            max_downloads,
            default_slots,
            use_slots,
            chunk_size_multi,
            limit_download_speed,
            max_download_speed_kbps,
            use_proxy,
            proxy_host,
            proxy_port,
            proxy_user,
            proxy_pass,
            use_smart_proxy,
            smart_proxy_url,
            smart_proxy_ban_time_s,
            smart_proxy_timeout_ms,
            smart_proxy_autorefresh_min,
            smart_proxy_random_select,
            smart_proxy_reset_slot,
            force_smart_proxy,
            use_mega_account_down,
            mega_account_down_email,
            dark_mode,
            language,
            init_paused,
            monitor_clipboard,
            verify_cbc_mac,
            verify_download_file,
        }
    }
}

} // verus!
