use megabasterd_core::crypto::{
    aes_cbc_decrypt_nopadding, aes_cbc_decrypt_pkcs7, aes_cbc_encrypt_nopadding, aes_cbc_encrypt_pkcs7,
    aes_ctr_decrypt, aes_ctr_encrypt, aes_ecb_decrypt_nopadding, aes_ecb_encrypt_nopadding, decrypt_key,
    decrypt_mega_downloader_link, encrypt_key, forward_mega_link_key_iv, init_mega_link_key,
    init_mega_link_key_iv, mega_prepare_master_key, mega_user_hash, pbkdf2_hmac_sha256, pbkdf2_hmac_sha512,
    rsa_decrypt, CryptoError,
};
use megabasterd_core::util::{bin_to_i32a, i32a_to_bin, url_base64_encode};

#[test]
fn test_aes_cbc_nopadding_roundtrip() {
    let key = [0u8; 16];
    let iv = [0u8; 16];
    let data = b"0123456789abcdef";
    let encrypted = aes_cbc_encrypt_nopadding(data, &key, &iv).unwrap();
    let decrypted = aes_cbc_decrypt_nopadding(&encrypted, &key, &iv).unwrap();
    assert_eq!(decrypted, data);
}

#[test]
fn test_aes_ecb_nopadding_roundtrip() {
    let key = [0x42u8; 16];
    let data = b"abcdefghijklmnop";
    let encrypted = aes_ecb_encrypt_nopadding(data, &key).unwrap();
    let decrypted = aes_ecb_decrypt_nopadding(&encrypted, &key).unwrap();
    assert_eq!(decrypted, data);
}

#[test]
fn test_aes_ctr_roundtrip() {
    let key = [0u8; 16];
    let iv = [0u8; 16];
    let data = b"hello world this is a test message";
    let encrypted = aes_ctr_encrypt(data, &key, &iv).unwrap();
    let decrypted = aes_ctr_decrypt(&encrypted, &key, &iv).unwrap();
    assert_eq!(decrypted, data);
}

#[test]
fn test_forward_mega_link_key_iv() {
    let iv = vec![0xAAu8, 0xBB, 0xCC, 0xDD, 0xEE, 0xFF, 0x11, 0x22, 0, 0, 0, 0, 0, 0, 0, 0];
    let bytes = 3584u64 * 1024;
    let new_iv = forward_mega_link_key_iv(&iv, bytes);
    assert_eq!(&new_iv[..8], &iv[..8]);
    let counter = bytes / 16;
    let expected_counter = counter.to_be_bytes();
    assert_eq!(&new_iv[8..], &expected_counter);
}

#[test]
fn test_init_mega_link_key() {
    let parts: [i32; 8] = [1, 2, 3, 4, 5, 6, 7, 8];
    let bytes = i32a_to_bin(&parts);
    let encoded = url_base64_encode(&bytes);
    let key = init_mega_link_key(&encoded);
    let key_ints = bin_to_i32a(&key);
    assert_eq!(key_ints[0], 1 ^ 5);
    assert_eq!(key_ints[1], 2 ^ 6);
    assert_eq!(key_ints[2], 3 ^ 7);
    assert_eq!(key_ints[3], 4 ^ 8);
}

#[test]
fn test_init_mega_link_key_iv() {
    let parts: [i32; 8] = [1, 2, 3, 4, 5, 6, 7, 8];
    let bytes = i32a_to_bin(&parts);
    let encoded = url_base64_encode(&bytes);
    let iv = init_mega_link_key_iv(&encoded);
    let iv_ints = bin_to_i32a(&iv);
    assert_eq!(iv_ints[0], 5);
    assert_eq!(iv_ints[1], 6);
    assert_eq!(iv_ints[2], 0);
    assert_eq!(iv_ints[3], 0);
}

#[test]
fn test_decrypt_key_roundtrip() {
    let key = [0x13u8; 16];
    let data = b"ABCDEFGHIJKLMNOP";
    let encrypted = encrypt_key(data, &key).unwrap();
    let decrypted = decrypt_key(&encrypted, &key).unwrap();
    assert_eq!(decrypted, data);
}

#[test]
fn cbc_refuses_partial_blocks_and_bad_keys() {
    let key = [0u8; 16];
    let iv = [0u8; 16];
    assert!(matches!(aes_cbc_encrypt_nopadding(b"short", &key, &iv), Err(CryptoError::InvalidDataLength)));
    assert!(matches!(
        aes_cbc_encrypt_nopadding(b"0123456789abcdef", &[0u8; 15], &iv),
        Err(CryptoError::InvalidKeyLength { expected: 16, got: 15 })
    ));
    assert!(matches!(
        aes_cbc_decrypt_nopadding(b"0123456789abcdef", &key, &[0u8; 8]),
        Err(CryptoError::InvalidKeyLength { expected: 16, got: 16 })
    ));
}

#[test]
fn cbc_known_vector_and_changes_data() {
    // FIPS-197 AES-128 vector: one block under a zero IV is plain AES.
    let key: Vec<u8> = (0u8..16).collect();
    let pt: Vec<u8> = vec![0x00, 0x11, 0x22, 0x33, 0x44, 0x55, 0x66, 0x77, 0x88, 0x99, 0xaa, 0xbb, 0xcc, 0xdd, 0xee, 0xff];
    let ct = aes_cbc_encrypt_nopadding(&pt, &key, &[0u8; 16]).unwrap();
    assert_eq!(ct, vec![0x69, 0xc4, 0xe0, 0xd8, 0x6a, 0x7b, 0x04, 0x30, 0xd8, 0xcd, 0xb7, 0x80, 0x70, 0xb4, 0xc5, 0x5a]);
    let ect = aes_ecb_encrypt_nopadding(&pt, &key).unwrap();
    assert_eq!(ect, ct);
}

#[test]
fn pkcs7_roundtrip_and_bad_padding() {
    let key = [7u8; 16];
    let iv = [9u8; 16];
    let ct = aes_cbc_encrypt_pkcs7(b"hello", &key, &iv).unwrap();
    assert_eq!(ct.len(), 16);
    assert_eq!(aes_cbc_decrypt_pkcs7(&ct, &key, &iv).unwrap(), b"hello");
    let full = aes_cbc_encrypt_pkcs7(b"0123456789abcdef", &key, &iv).unwrap();
    assert_eq!(full.len(), 32);
    let raw = aes_cbc_encrypt_nopadding(&[0u8; 16], &key, &iv).unwrap();
    assert!(matches!(aes_cbc_decrypt_pkcs7(&raw, &key, &iv), Err(CryptoError::DecryptionFailed)));
    assert!(matches!(aes_cbc_decrypt_pkcs7(&raw, &[1u8; 3], &iv), Err(CryptoError::InvalidKeyLength { .. })));
}

#[test]
fn ctr_changes_data_and_refuses_bad_iv() {
    let key = [3u8; 16];
    let iv = [4u8; 16];
    let out = aes_ctr_encrypt(b"abc", &key, &iv).unwrap();
    assert_eq!(out.len(), 3);
    assert_ne!(out, b"abc");
    assert!(matches!(aes_ctr_decrypt(b"abc", &key, &[0u8; 4]), Err(CryptoError::InvalidKeyLength { expected: 16, got: 16 })));
}

#[test]
fn ecb_refuses_partial_blocks_and_keys() {
    assert!(matches!(aes_ecb_decrypt_nopadding(b"abc", &[0u8; 16]), Err(CryptoError::InvalidDataLength)));
    assert!(matches!(aes_ecb_encrypt_nopadding(&[0u8; 16], &[0u8; 10]), Err(CryptoError::InvalidKeyLength { expected: 16, got: 10 })));
}

#[test]
fn key_blobs_drop_partial_chunks() {
    let key = [5u8; 16];
    let data: Vec<u8> = (0u8..40).collect();
    let enc = encrypt_key(&data, &key).unwrap();
    assert_eq!(enc.len(), 32);
    assert_eq!(decrypt_key(&enc, &key).unwrap(), data[..32].to_vec());
    // No whole chunk: no key check either.
    assert_eq!(decrypt_key(&[1u8, 2, 3], &[0u8; 2]).unwrap(), Vec::<u8>::new());
    assert!(matches!(decrypt_key(&[0u8; 16], &[0u8; 2]), Err(CryptoError::InvalidKeyLength { expected: 16, got: 2 })));
}

#[test]
fn short_link_keys() {
    // 16 bytes of key: fewer than eight integers, so the key is taken as is.
    let raw: Vec<u8> = (1u8..=16).collect();
    let encoded = url_base64_encode(&raw);
    assert_eq!(init_mega_link_key(&encoded), raw);
    assert_eq!(init_mega_link_key_iv(&encoded), vec![0u8; 16]);
    assert_eq!(init_mega_link_key("!!not base64!!"), Vec::<u8>::new());
}

#[test]
fn forward_iv_with_short_iv() {
    let iv = [1u8, 2, 3];
    let out = forward_mega_link_key_iv(&iv, 32);
    assert_eq!(out, vec![1, 2, 3, 0, 0, 0, 0, 0, 0, 0, 0, 0, 0, 0, 0, 2]);
}

#[test]
fn rsa_small_numbers() {
    // 4^13 mod (3 * 11) = 67108864 mod 33 = 31
    let r = rsa_decrypt(&[4], &[3], &[11], &[13]);
    assert_eq!(r, vec![31]);
    // zero result is the single byte 0
    let z = rsa_decrypt(&[0], &[3], &[11], &[5]);
    assert_eq!(z, vec![0]);
}

#[test]
fn pbkdf2_known_vectors() {
    // RFC 6070 style vector for HMAC-SHA256: password, salt, 1 iteration, 32 bytes.
    let out = pbkdf2_hmac_sha256("password", b"salt", 1, 256).unwrap();
    assert_eq!(
        out,
        vec![
            0x12, 0x0f, 0xb6, 0xcf, 0xfc, 0xf8, 0xb3, 0x2c, 0x43, 0xe7, 0x22, 0x52, 0x56, 0xc4, 0xf8, 0x37, 0xa8,
            0x65, 0x48, 0xc9, 0x2c, 0xcc, 0x35, 0x48, 0x08, 0x05, 0x98, 0x7c, 0xb7, 0x0b, 0xe1, 0x7b
        ]
    );
    let long = pbkdf2_hmac_sha512("password", b"salt", 1, 512).unwrap();
    assert_eq!(long.len(), 64);
    assert_eq!(&long[..4], &[0x86, 0x7f, 0x70, 0xcf]);
}

#[test]
fn user_hash_shape_and_key_check() {
    let key = [1i32, 2, 3, 4];
    let h = mega_user_hash(b"user@example.com", &key).unwrap();
    assert_eq!(h.len(), 11);
    assert!(matches!(mega_user_hash(b"a", &[1, 2]), Err(CryptoError::InvalidKeyLength { expected: 16, got: 8 })));
}

#[test]
fn master_key_is_deterministic() {
    let a = mega_prepare_master_key(&[0x61626364]).unwrap();
    let b = mega_prepare_master_key(&[0x61626364]).unwrap();
    assert_eq!(a.len(), 4);
    assert_eq!(a, b);
    // An empty password leaves the seed block unchanged.
    let seed = mega_prepare_master_key(&[]).unwrap();
    assert_eq!(seed, vec![0x93C467E3u32 as i32, 0x7DB0C7A4u32 as i32, 0xD1BE3F81u32 as i32, 0x0152CB56]);
}

#[test]
fn downloader_links() {
    assert!(matches!(decrypt_mega_downloader_link("https://example.com"), Err(CryptoError::InvalidInput(m)) if m == "Not a mega://enc link"));
    assert!(matches!(decrypt_mega_downloader_link("mega://enc?"), Err(CryptoError::InvalidInput(m)) if m == "Empty encrypted data"));
    assert!(matches!(decrypt_mega_downloader_link("mega://enc?AABB"), Err(CryptoError::InvalidDataLength)));
    // Build an encrypted link with the second fixed key and read it back.
    let key2 = [0x93u8, 0xc4, 0x67, 0xe3, 0x7d, 0xb0, 0xc7, 0xa4, 0xd1, 0xbe, 0x3f, 0x81, 0x01, 0x52, 0xcb, 0x56];
    let mut plain = b"https://mega.nz/#!abc!def".to_vec();
    while plain.len() % 16 != 0 {
        plain.push(0);
    }
    let ct = aes_cbc_encrypt_nopadding(&plain, &key2, &[0u8; 16]).unwrap();
    let link = format!("mega://enc?{}", url_base64_encode(&ct));
    assert_eq!(decrypt_mega_downloader_link(&link).unwrap(), "https://mega.nz/#!abc!def");
    let link2 = format!("mega://enc2?{}", url_base64_encode(&ct));
    assert_eq!(decrypt_mega_downloader_link(&link2).unwrap(), "https://mega.nz/#!abc!def");
}
