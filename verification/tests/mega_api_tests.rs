use megabasterd_core::config::{FATAL_API_ERROR_CODES, MEGA_ERROR_NO_EXCEPTION_CODES};
use megabasterd_core::db::MegaAccountRecord;
use megabasterd_core::crypto::{aes_cbc_encrypt_nopadding, encrypt_key, init_mega_link_key, mega_prepare_master_key, mega_user_hash};
use megabasterd_core::mega_api::errors::{is_fatal_error, is_no_exception_code, MegaApiError};
use megabasterd_core::mega_api::login::{account_version, clean_email, login_keys, login_keys_v1, login_keys_v2, pack_password};
use megabasterd_core::mega_api::metadata::{
    build_api_url, decrypt_file_attributes, download_url_from_reply, file_info_from_reply, file_metadata_from_reply,
    folder_api_url, folder_node, folder_nodes_from_reply, plain_api_url, two_factor_enabled, FileReply, RawNode,
};
use megabasterd_core::mega_api::request::{RequestAction, RequestAttempts, RequestEvent};
use megabasterd_core::mega_api::session::{decrypt_session_id, extract_rsa_priv_key, login_session, LoginReply};
use megabasterd_core::mega_api::types::MegaSession;
use megabasterd_core::util::{i32a_to_bin, url_base64_decode, url_base64_encode};

#[test]
fn error_codes() {
    for c in [-2, -4, -8, -14, -15, -16, -17, 22, 23, 24] {
        assert!(is_fatal_error(c));
    }
    for c in FATAL_API_ERROR_CODES {
        assert!(is_fatal_error(c));
    }
    for c in MEGA_ERROR_NO_EXCEPTION_CODES {
        assert!(is_no_exception_code(c));
        assert!(!is_fatal_error(c));
    }
    for c in [-1, -3, -5, -9, 0, 1, 21, 25] {
        assert!(!is_fatal_error(c));
    }
    assert!(is_no_exception_code(-1));
    assert!(is_no_exception_code(-3));
    assert!(!is_no_exception_code(-2));
    assert!(!is_no_exception_code(0));
}

#[test]
fn request_network_failures_back_off_then_fail() {
    let mut a = RequestAttempts::new();
    let mut waits = Vec::new();
    for _ in 0..10 {
        match a.step(RequestEvent::NetworkFailure("down".to_string())) {
            RequestAction::Retry { wait_secs } => waits.push(wait_secs),
            other => panic!("unexpected {:?}", other),
        }
    }
    assert_eq!(waits, vec![1, 2, 4, 8, 8, 8, 8, 8, 8, 8]);
    assert_eq!(a.retry_count, 10);
    match a.step(RequestEvent::NetworkFailure("down".to_string())) {
        RequestAction::Fail(MegaApiError::NetworkError(m)) => assert_eq!(m, "down"),
        other => panic!("unexpected {:?}", other),
    }
}

#[test]
fn request_statuses() {
    let mut a = RequestAttempts::new();
    assert!(matches!(a.step(RequestEvent::Status(509)), RequestAction::Fail(MegaApiError::BandwidthLimitExceeded)));
    assert!(matches!(a.step(RequestEvent::Status(403)), RequestAction::Fail(MegaApiError::Forbidden)));
    assert!(matches!(a.step(RequestEvent::Status(200)), RequestAction::ReadBody));
    assert!(matches!(a.step(RequestEvent::Status(201)), RequestAction::ReadBody));
    assert_eq!(a.retry_count, 0);
    assert!(matches!(a.step(RequestEvent::Status(429)), RequestAction::Retry { wait_secs: 1 }));
    assert!(matches!(a.step(RequestEvent::Status(500)), RequestAction::Retry { wait_secs: 0 }));
    assert_eq!(a.retry_count, 2);

    let mut b = RequestAttempts::new();
    for _ in 0..5 {
        assert!(matches!(b.step(RequestEvent::Status(502)), RequestAction::Retry { wait_secs: 0 }));
    }
    assert!(matches!(b.step(RequestEvent::Status(502)), RequestAction::Fail(MegaApiError::HttpError(502))));

    let mut c = RequestAttempts::new();
    for _ in 0..5 {
        assert!(matches!(c.step(RequestEvent::Status(429)), RequestAction::Retry { .. }));
    }
    assert!(matches!(c.step(RequestEvent::Status(429)), RequestAction::Fail(MegaApiError::TooManyRequests)));
}

#[test]
fn request_bodies() {
    let mut a = RequestAttempts::new();
    assert!(matches!(a.step(RequestEvent::Body("[-2]".to_string())), RequestAction::Fail(MegaApiError::FatalApiError(-2))));
    assert!(matches!(a.step(RequestEvent::Body(" -16 ".to_string())), RequestAction::Fail(MegaApiError::FatalApiError(-16))));
    assert!(matches!(a.step(RequestEvent::Body("[-9]".to_string())), RequestAction::Fail(MegaApiError::ApiError(-9))));
    assert!(matches!(a.step(RequestEvent::Body("[-3]".to_string())), RequestAction::Retry { wait_secs: 1 }));
    assert!(matches!(a.step(RequestEvent::Body("[[-1]]".to_string())), RequestAction::Retry { wait_secs: 2 }));
    assert_eq!(a.retry_count, 2);
    match a.step(RequestEvent::Body("[0]".to_string())) {
        RequestAction::Done(b) => assert_eq!(b, "[0]"),
        other => panic!("unexpected {:?}", other),
    }
    match a.step(RequestEvent::Body("[{\"v\":2}]".to_string())) {
        RequestAction::Done(b) => assert_eq!(b, "[{\"v\":2}]"),
        other => panic!("unexpected {:?}", other),
    }
    match a.step(RequestEvent::BodyFailure("cut".to_string())) {
        RequestAction::Fail(MegaApiError::NetworkError(m)) => assert_eq!(m, "cut"),
        other => panic!("unexpected {:?}", other),
    }

    let mut e = RequestAttempts::new();
    for _ in 0..5 {
        assert!(matches!(e.step(RequestEvent::Body(String::new())), RequestAction::Retry { wait_secs: 0 }));
    }
    match e.step(RequestEvent::Body(String::new())) {
        RequestAction::Fail(MegaApiError::InvalidResponse(m)) => assert_eq!(m, "Empty body"),
        other => panic!("unexpected {:?}", other),
    }
}

#[test]
fn email_and_version() {
    assert_eq!(clean_email("User@Example.COM#tag"), "user@example.com");
    assert_eq!(clean_email("plain@mail.net"), "plain@mail.net");
    assert_eq!(account_version(None), 1);
    assert_eq!(account_version(Some(2)), 2);
    assert_eq!(account_version(Some((1i64 << 32) + 2)), 2);
}

#[test]
fn password_packing() {
    assert_eq!(pack_password("abcde"), vec![0x61626364, 0x65000000]);
    assert_eq!(pack_password("abcd"), vec![0x61626364]);
    assert_eq!(pack_password(""), Vec::<i32>::new());
    assert_eq!(pack_password("\u{ff}"), vec![(0xc3bf0000u32) as i32]);
}

#[test]
fn legacy_login_keys() {
    let (key, hash) = login_keys_v1("secret", "user@example.com");
    let expected_key = mega_prepare_master_key(&pack_password("secret")).unwrap();
    assert_eq!(key, expected_key);
    assert_eq!(key.len(), 4);
    assert_eq!(hash, mega_user_hash(b"user@example.com", &expected_key).unwrap());
    let (k2, h2) = login_keys(1, "secret", "user@example.com", Some("ignored"));
    assert_eq!((k2, h2), (key, hash));
}

#[test]
fn pbkdf2_login_keys() {
    let salt = url_base64_encode(b"0123456789abcdef");
    let (key, hash) = login_keys_v2("secret", Some(&salt));
    let mut derived = [0u8; 32];
    pbkdf2::pbkdf2::<hmac::Hmac<sha2::Sha512>>(b"secret", b"0123456789abcdef", 100_000, &mut derived).unwrap();
    assert_eq!(i32a_to_bin(&key), derived[..16].to_vec());
    assert_eq!(url_base64_decode(&hash), derived[16..].to_vec());
    let (k2, h2) = login_keys(2, "secret", "ignored@x", Some(&salt));
    assert_eq!((k2, h2), (key, hash));
}

fn mpi(value: &[u8], bits: u16) -> Vec<u8> {
    let mut v = bits.to_be_bytes().to_vec();
    v.extend_from_slice(value);
    v
}

#[test]
fn rsa_key_and_session_id() {
    // p = 61, q = 53, d = 2753, u = 1; 65^17 mod 3233 = 2790.
    let mut blob = Vec::new();
    blob.extend(mpi(&[61], 6));
    blob.extend(mpi(&[53], 6));
    blob.extend(mpi(&[0x0a, 0xc1], 12));
    blob.extend(mpi(&[1], 1));
    let key = extract_rsa_priv_key(&blob);
    assert_eq!(key.p, vec![61]);
    assert_eq!(key.q, vec![53]);
    assert_eq!(key.d, vec![0x0a, 0xc1]);
    assert_eq!(key.u, vec![1]);
    let csid = url_base64_encode(&mpi(&[0x0a, 0xe6], 12));
    assert_eq!(decrypt_session_id(&key, &csid), url_base64_encode(&[65]));

    let short = extract_rsa_priv_key(&[0x00, 0x10, 0x01]);
    assert!(short.p.is_empty() && short.q.is_empty() && short.d.is_empty() && short.u.is_empty());
}

fn session_inputs() -> (Vec<i32>, Vec<u8>, String) {
    let password_aes = vec![1, 2, 3, 4];
    let master = b"MASTERKEY0123456".to_vec();
    let k = url_base64_encode(&encrypt_key(&master, &i32a_to_bin(&password_aes)).unwrap());
    (password_aes, master, k)
}

#[test]
fn login_session_without_rsa() {
    let (password_aes, master, k) = session_inputs();
    let reply = LoginReply { k: Some(k), csid: None, privk: None };
    let s = login_session("User@X.com", "user@x.com", password_aes.clone(), "hash".to_string(), 2, Some("salt".to_string()), &reply).unwrap();
    assert_eq!(i32a_to_bin(&s.master_key), master);
    assert_eq!(s.sid, None);
    assert_eq!(s.email, "user@x.com");
    assert_eq!(s.full_email, "User@X.com");
    assert_eq!(s.password_aes, password_aes);
    assert_eq!(s.account_version, 2);
    assert_eq!(s.salt, Some("salt".to_string()));
    assert!(s.root_id.is_none());
}

#[test]
fn login_session_with_rsa() {
    let (password_aes, master, k) = session_inputs();
    let mut blob = Vec::new();
    blob.extend(mpi(&[61], 6));
    blob.extend(mpi(&[53], 6));
    blob.extend(mpi(&[0x0a, 0xc1], 12));
    blob.extend(mpi(&[1], 1));
    blob.resize(16, 0);
    let privk = url_base64_encode(&encrypt_key(&blob, &master).unwrap());
    let csid = url_base64_encode(&mpi(&[0x0a, 0xe6], 12));
    let reply = LoginReply { k: Some(k.clone()), csid: Some(csid.clone()), privk: Some(privk) };
    let s = login_session("a@b", "a@b", password_aes.clone(), "h".to_string(), 1, None, &reply).unwrap();
    assert_eq!(s.sid, Some(url_base64_encode(&[65])));

    let zeros = url_base64_encode(&encrypt_key(&[0u8; 16], &master).unwrap());
    let reply = LoginReply { k: Some(k.clone()), csid: Some(csid.clone()), privk: Some(zeros) };
    match login_session("a@b", "a@b", password_aes.clone(), "h".to_string(), 1, None, &reply) {
        Err(MegaApiError::CryptoError(m)) => assert_eq!(m, "RSA modulus is zero"),
        other => panic!("unexpected {:?}", other.err()),
    }

    let reply = LoginReply { k: Some(k), csid: Some(csid), privk: None };
    match login_session("a@b", "a@b", password_aes.clone(), "h".to_string(), 1, None, &reply) {
        Err(MegaApiError::InvalidResponse(m)) => assert_eq!(m, "Missing privk"),
        other => panic!("unexpected {:?}", other.err()),
    }

    let reply = LoginReply { k: None, csid: None, privk: None };
    match login_session("a@b", "a@b", password_aes.clone(), "h".to_string(), 1, None, &reply) {
        Err(MegaApiError::InvalidResponse(m)) => assert_eq!(m, "Missing k field"),
        other => panic!("unexpected {:?}", other.err()),
    }

    let reply = LoginReply { k: Some(url_base64_encode(&[1u8; 16])), csid: None, privk: None };
    match login_session("a@b", "a@b", vec![1, 2], "h".to_string(), 1, None, &reply) {
        Err(MegaApiError::CryptoError(m)) => assert_eq!(m, "Invalid key length: expected 16, got 8"),
        other => panic!("unexpected {:?}", other.err()),
    }
}

fn encrypted_attributes(text: &str, key: &[u8]) -> String {
    let mut data = text.as_bytes().to_vec();
    while data.len() % 16 != 0 {
        data.push(0);
    }
    url_base64_encode(&aes_cbc_encrypt_nopadding(&data, key, &[0u8; 16]).unwrap())
}

const FILE_KEY: &str = "AAECAwQFBgcICQoLDA0ODxAREhMUFRYXGBkaGxwdHh8";

#[test]
fn file_attributes() {
    let key = init_mega_link_key(FILE_KEY);
    assert_eq!(key.len(), 16);
    let at = encrypted_attributes("MEGA{\"n\":\"movie.mkv\",\"c\":\"x\"}", &key);
    assert_eq!(decrypt_file_attributes(&at, FILE_KEY), Some("movie.mkv".to_string()));
    let at = encrypted_attributes("MEGAMEGA  {\"c\":\"x\"}  ", &key);
    assert_eq!(decrypt_file_attributes(&at, FILE_KEY), Some("unknown".to_string()));
    let at = encrypted_attributes("MEGA{not json", &key);
    assert_eq!(decrypt_file_attributes(&at, FILE_KEY), None);
    assert_eq!(decrypt_file_attributes(&at, "AAEC"), None);
}

#[test]
fn file_replies() {
    let key = init_mega_link_key(FILE_KEY);
    let at = encrypted_attributes("MEGA{\"n\":\"a.txt\"}", &key);
    let (meta, url) = file_info_from_reply(
        Some(FileReply { size: Some(42), attributes: Some(at.clone()), url: Some("https://dl/x".to_string()) }),
        FILE_KEY,
    ).unwrap();
    assert_eq!((meta.name.as_str(), meta.size, meta.key.as_str(), url.as_str()), ("a.txt", 42, FILE_KEY, "https://dl/x"));

    match file_info_from_reply(Some(FileReply { size: None, attributes: None, url: None }), FILE_KEY) {
        Err(MegaApiError::InvalidResponse(m)) => assert_eq!(m, "Missing size in g response"),
        _ => panic!(),
    }
    match file_info_from_reply(Some(FileReply { size: Some(1), attributes: None, url: None }), FILE_KEY) {
        Err(MegaApiError::InvalidResponse(m)) => assert_eq!(m, "Missing download URL in g response"),
        _ => panic!(),
    }
    match file_info_from_reply(None, FILE_KEY) {
        Err(MegaApiError::InvalidResponse(m)) => assert_eq!(m, "Empty g response"),
        _ => panic!(),
    }
    let meta = file_metadata_from_reply(Some(FileReply { size: Some(7), attributes: None, url: None }), FILE_KEY).unwrap();
    assert_eq!((meta.name.as_str(), meta.size), ("unknown", 7));
    match file_metadata_from_reply(Some(FileReply { size: None, attributes: None, url: None }), FILE_KEY) {
        Err(MegaApiError::InvalidResponse(m)) => assert_eq!(m, "Missing size"),
        _ => panic!(),
    }
    assert_eq!(download_url_from_reply(Some(FileReply { size: None, attributes: None, url: Some("u".to_string()) })).unwrap(), "u");
    match download_url_from_reply(Some(FileReply { size: None, attributes: None, url: None })) {
        Err(MegaApiError::InvalidResponse(m)) => assert_eq!(m, "Missing download URL"),
        _ => panic!(),
    }
    assert!(two_factor_enabled(&[1, 0]));
    assert!(!two_factor_enabled(&[0]));
    assert!(!two_factor_enabled(&[]));
}

#[test]
fn folder_nodes() {
    let node_key = FILE_KEY;
    let at = encrypted_attributes("MEGA{\"n\":\"inner.bin\"}", &init_mega_link_key(node_key));
    let raw = RawNode {
        handle: Some("H1".to_string()),
        parent: None,
        node_type: Some(0),
        size: Some(10),
        key: Some(format!("owner:{}", node_key)),
        attributes: Some(at),
    };
    let n = folder_node(&raw);
    assert_eq!(n.handle, "H1");
    assert_eq!(n.parent, "");
    assert_eq!(n.node_type, 0);
    assert_eq!(n.size, Some(10));
    assert_eq!(n.key, Some(node_key.to_string()));
    assert_eq!(n.name, Some("inner.bin".to_string()));

    let bare = RawNode { handle: None, parent: Some("P".to_string()), node_type: None, size: None, key: None, attributes: Some("x".to_string()) };
    let n = folder_node(&bare);
    assert_eq!((n.handle.as_str(), n.parent.as_str(), n.node_type, n.name, n.key), ("", "P", 0, None, None));

    let nodes = folder_nodes_from_reply(Some(vec![raw, bare]), true).unwrap();
    assert_eq!(nodes.len(), 2);
    assert_eq!(folder_nodes_from_reply(None, true).unwrap().len(), 0);
    match folder_nodes_from_reply(None, false) {
        Err(MegaApiError::InvalidResponse(m)) => assert_eq!(m, "Empty folder response"),
        _ => panic!(),
    }
}

fn empty_session() -> MegaSession {
    MegaSession {
        email: "e".to_string(),
        full_email: "E".to_string(),
        sid: Some("SID".to_string()),
        master_key: vec![1, 2, 3, 4],
        password_aes: vec![5, 6, 7, 8],
        user_hash: "h".to_string(),
        root_id: None,
        inbox_id: Some("old".to_string()),
        trashbin_id: None,
        account_version: 1,
        salt: None,
    }
}

#[test]
fn special_nodes_and_urls() {
    let mut s = empty_session();
    s.apply_special_nodes(&[
        (Some(2), Some("root1".to_string())),
        (Some(4), Some("trash".to_string())),
        (None, Some("skip".to_string())),
        (Some(2), Some("root2".to_string())),
        (Some(0), Some("file".to_string())),
    ]);
    assert_eq!(s.root_id, Some("root2".to_string()));
    assert_eq!(s.inbox_id, Some("old".to_string()));
    assert_eq!(s.trashbin_id, Some("trash".to_string()));
    s.apply_special_nodes(&[(Some(3), None)]);
    assert_eq!(s.inbox_id, None);

    assert_eq!(plain_api_url(7), "https://g.api.mega.co.nz/cs?id=7");
    assert_eq!(folder_api_url(8, "FOLDER"), "https://g.api.mega.co.nz/cs?id=8&n=FOLDER");
    assert_eq!(build_api_url(9, false, &Some(empty_session())), "https://g.api.mega.co.nz/cs?id=9&app=megabasterd");
    assert_eq!(build_api_url(10, true, &Some(empty_session())), "https://g.api.mega.co.nz/cs?id=10&app=megabasterd&sid=SID");
    assert_eq!(build_api_url(11, true, &None), "https://g.api.mega.co.nz/cs?id=11&app=megabasterd");
}

#[test]
fn account_records() {
    let s = empty_session();
    let r = MegaAccountRecord::for_session("a@b.c", "pw", &s);
    assert_eq!(r.email, "a@b.c");
    assert_eq!(r.password, "pw");
    assert_eq!(r.password_aes, "00000005000000060000000700000008");
    assert_eq!(r.user_hash, "h");
}

#[test]
fn api_error_messages() {
    assert_eq!(MegaApiError::ApiError(-2).message(), "MEGA API error code: -2");
    assert_eq!(MegaApiError::HttpError(404).message(), "HTTP error: 404");
    assert_eq!(MegaApiError::FatalApiError(22).message(), "Fatal API error: 22");
    assert_eq!(MegaApiError::CryptoError("bad key".to_string()).message(), "Crypto error: bad key");
    assert_eq!(MegaApiError::BandwidthLimitExceeded.message(), "Rate limited (509)");
    assert_eq!(MegaApiError::Forbidden.message(), "Forbidden (403)");
}
