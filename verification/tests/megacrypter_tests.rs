use megabasterd_core::crypto::{aes_cbc_encrypt_pkcs7, CryptoError};
use megabasterd_core::megacrypter::{api_url, derive_mc_password_key, mc_download_url_from_reply, mc_metadata_from_reply, McError, McInfoReply};
use megabasterd_core::util::url_base64_encode;

fn reply() -> McInfoReply {
    McInfoReply { error: None, pass: None, name: None, key: None, size: None, noexpire: None, path: None }
}

#[test]
fn service_address() {
    assert_eq!(api_url("https://encrypterme.click/!abc!def").unwrap(), "https://encrypterme.click/api");
    assert_eq!(api_url("http://host:8080/x?y").unwrap(), "http://host/api");
    assert!(matches!(api_url("not a url"), Err(McError::InvalidUrl(m)) if m == "not a url"));
}

#[test]
fn password_fields() {
    assert!(matches!(derive_mc_password_key("1#2#3", "pw"), Err(McError::InvalidPassField)));
    assert!(matches!(derive_mc_password_key("x#a#b#c", "pw"), Err(McError::InvalidIterations)));
    // The derived key is 32 bytes, which AES-128 refuses.
    assert!(matches!(
        derive_mc_password_key("2#AAAAAAAAAAAAAAAAAAAAAA==#c2FsdA==#AAAAAAAAAAAAAAAAAAAAAA==", "pw"),
        Err(McError::Crypto(CryptoError::InvalidKeyLength { expected: 16, got: 32 }))
    ));
    assert!(matches!(derive_mc_password_key("2#AAA=#c2FsdA==#AAAAAAAAAAAAAAAAAAAAAA==", "pw"), Err(McError::Crypto(CryptoError::InvalidDataLength))));
}

#[test]
fn metadata_answers() {
    let mut r = reply();
    r.name = Some("file.zip".to_string());
    r.key = Some("KEY".to_string());
    r.size = Some(99);
    r.path = Some("p".to_string());
    let m = mc_metadata_from_reply(&r, None).unwrap();
    assert_eq!((m.name.as_str(), m.key.as_str(), m.size, m.path.as_deref()), ("file.zip", "KEY", 99, Some("p")));
    assert!(m.password_hash.is_none());

    let m = mc_metadata_from_reply(&reply(), None).unwrap();
    assert_eq!((m.name.as_str(), m.key.as_str(), m.size), ("unknown", "", 0));

    let mut e = reply();
    e.error = Some("\"link expired\"".to_string());
    assert!(matches!(mc_metadata_from_reply(&e, None), Err(McError::Api(m)) if m == "MegaCrypter error: \"link expired\""));

    let mut p = reply();
    p.pass = Some("2#AA==#AA==#AA==".to_string());
    assert!(matches!(mc_metadata_from_reply(&p, None), Err(McError::PasswordRequired)));
    assert!(matches!(mc_metadata_from_reply(&p, Some("pw")), Err(McError::Crypto(_))));
}

#[test]
fn download_url_answers() {
    assert_eq!(mc_download_url_from_reply(&None, &Some("https://x/y".to_string()), None).unwrap(), "https://x/y");
    assert!(matches!(mc_download_url_from_reply(&None, &None, None), Err(McError::MissingUrl)));
    assert!(matches!(mc_download_url_from_reply(&Some("1".to_string()), &None, None), Err(McError::Api(m)) if m == "MegaCrypter error: 1"));

    let key = [3u8; 16];
    let enc = aes_cbc_encrypt_pkcs7(b"https://real/url", &key, &[0u8; 16]).unwrap();
    let url = url_base64_encode(&enc);
    let pass = url_base64_encode(&key);
    assert_eq!(mc_download_url_from_reply(&None, &Some(url.clone()), Some(&pass)).unwrap(), "https://real/url");
    assert!(matches!(mc_download_url_from_reply(&None, &Some(url), Some("AAAA")), Err(McError::Crypto(CryptoError::InvalidKeyLength { .. }))));
}
