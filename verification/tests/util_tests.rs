use megabasterd_core::text::signed_decimal_string;
use megabasterd_core::util::format_bytes;
use megabasterd_core::util::{
    base64_decode, base64_encode, bin_to_hex, bin_to_i32a, clean_filename, find_all_regex, find_first_regex,
    format_duration, gen_id, hex_to_bin, i32a_to_bin, long_to_bytearray, mpi_to_big, rec_reverse_array,
    sha1_hex, url_base64_decode, url_base64_encode, wait_time_exp_backoff,
};

#[test]
fn test_i32a_roundtrip() {
    let original = vec![1i32, -1, 0x12345678, i32::MAX, i32::MIN];
    let bytes = i32a_to_bin(&original);
    let recovered = bin_to_i32a(&bytes);
    assert_eq!(original, recovered);
}

#[test]
fn test_url_base64_roundtrip() {
    let data = b"hello world MEGA test \x00\xFF\xAB";
    let encoded = url_base64_encode(data);
    let decoded = url_base64_decode(&encoded);
    assert_eq!(data.to_vec(), decoded);
}

#[test]
fn test_mpi_to_big() {
    let mpi = vec![0x00, 0x08, 0x05];
    let big = mpi_to_big(&mpi);
    assert_eq!(big, vec![5u8]);
}

#[test]
fn test_exp_backoff() {
    assert_eq!(wait_time_exp_backoff(0), 1);
    assert_eq!(wait_time_exp_backoff(1), 2);
    assert_eq!(wait_time_exp_backoff(2), 4);
    assert_eq!(wait_time_exp_backoff(3), 8);
    assert_eq!(wait_time_exp_backoff(4), 8);
}

#[test]
fn test_find_first_regex() {
    let result = find_first_regex(r"foo(\d+)", "bar foo42 baz", 1);
    assert_eq!(result, Some("42".to_string()));
}

#[test]
fn test_sha1_hex() {
    let result = sha1_hex("test");
    assert_eq!(result.len(), 40);
    assert!(result.chars().all(|c| c.is_ascii_hexdigit()));
}

#[test]
fn sha1_hex_value() {
    // SHA-256("test") = 9f86d081884c7d659a2feaa0c55ad015a3bf4f1b2b0b822cd15d6c15b0f00a08
    assert_eq!(sha1_hex("test"), "9f86d081884c7d659a2feaa0c55ad015a3bf4f1b");
}

#[test]
fn byte_order_values() {
    assert_eq!(i32a_to_bin(&[0x01020304, -1]), vec![1, 2, 3, 4, 0xff, 0xff, 0xff, 0xff]);
    assert_eq!(bin_to_i32a(&[0, 0, 1, 0, 9]), vec![256]);
    assert_eq!(long_to_bytearray(0x0102030405060708), vec![1, 2, 3, 4, 5, 6, 7, 8]);
}

#[test]
fn base64_forms() {
    assert_eq!(url_base64_encode(&[0xfb, 0xff]), "-_8");
    assert_eq!(base64_encode(&[0xfb, 0xff]), "+/8=");
    assert_eq!(base64_decode("+/8="), vec![0xfb, 0xff]);
    assert_eq!(url_base64_decode("-_8="), Vec::<u8>::new());
    assert_eq!(base64_decode("***"), Vec::<u8>::new());
}

#[test]
fn hex_forms() {
    assert_eq!(bin_to_hex(&[0x0a, 0xff]), "0aff");
    assert_eq!(hex_to_bin("0AfF"), vec![0x0a, 0xff]);
    assert_eq!(hex_to_bin("abc"), Vec::<u8>::new());
    assert_eq!(hex_to_bin("zz"), Vec::<u8>::new());
}

#[test]
fn mpi_edge_cases() {
    assert_eq!(mpi_to_big(&[0x00]), Vec::<u8>::new());
    assert_eq!(mpi_to_big(&[0x00, 0x10, 0xab]), vec![0xab]);
    assert_eq!(mpi_to_big(&[0x00, 0x09, 0x01, 0x02, 0x03]), vec![0x01, 0x02]);
}

#[test]
fn ids_and_names() {
    let id = gen_id(10);
    assert_eq!(id.len(), 10);
    assert!(id.chars().all(|c| c.is_ascii_alphanumeric()));
    assert_eq!(clean_filename("a/b\\c:d*e?f\"g<h>i|j"), "a_b_c_d_e_f_g_h_i_j");
    assert_eq!(clean_filename("ok name.zip"), "ok name.zip");
}

#[test]
fn durations() {
    assert_eq!(format_duration(5), "5s");
    assert_eq!(format_duration(65), "1m 5s");
    assert_eq!(format_duration(3725), "1h 2m");
}

#[test]
fn reversal() {
    let mut a = [1u8, 2, 3, 4, 5];
    rec_reverse_array(&mut a, 1, 3);
    assert_eq!(a, [1, 4, 3, 2, 5]);
    let mut b = [1u8, 2, 3, 4];
    rec_reverse_array(&mut b, 0, 3);
    assert_eq!(b, [4, 3, 2, 1]);
    rec_reverse_array(&mut b, 2, 2);
    assert_eq!(b, [4, 3, 2, 1]);
}

#[test]
fn regex_all() {
    assert_eq!(find_all_regex(r"(\d)", "a1b2c3", 1), vec!["1", "2", "3"]);
    assert_eq!(find_all_regex(r"(", "a1", 1), Vec::<String>::new());
    assert_eq!(find_first_regex(r"x(y)?", "x", 1), None);
}

#[test]
fn signed_decimal_strings() {
    assert_eq!(signed_decimal_string(0), "0");
    assert_eq!(signed_decimal_string(-17), "-17");
    assert_eq!(signed_decimal_string(1234567), "1234567");
    assert_eq!(signed_decimal_string(i64::MIN), "-9223372036854775808");
}

#[test]
fn test_format_bytes() {
    assert_eq!(format_bytes(512), "512 B");
    assert_eq!(format_bytes(1024), "1.00 KB");
    assert_eq!(format_bytes(1024 * 1024), "1.00 MB");
}

/// The same text through floating point, as a display of sizes would do it.
fn float_format_bytes(bytes: u64) -> String {
    let units = ["B", "KB", "MB", "GB", "TB"];
    let mut value = bytes as f64;
    let mut idx = 0;
    while value >= 1024.0 && idx < units.len() - 1 {
        value /= 1024.0;
        idx += 1;
    }
    if idx == 0 {
        format!("{} {}", bytes, units[0])
    } else {
        format!("{:.2} {}", value, units[idx])
    }
}

#[test]
fn format_bytes_units_and_rounding() {
    assert_eq!(format_bytes(0), "0 B");
    assert_eq!(format_bytes(1023), "1023 B");
    assert_eq!(format_bytes(1536), "1.50 KB");
    assert_eq!(format_bytes(1048575), "1024.00 KB");
    assert_eq!(format_bytes(5 * 1024 * 1024 * 1024), "5.00 GB");
    assert_eq!(format_bytes(3 * 1024u64.pow(4)), "3.00 TB");
    assert_eq!(format_bytes(2048 * 1024u64.pow(4)), "2048.00 TB");
}

#[test]
fn format_bytes_agrees_with_floating_point() {
    let mut samples: Vec<u64> = vec![
        1024, 1025, 1152, 1153, 1151, 1408, 2047, 2048, 10239, 10240, 1048576, 1049088,
        123456789, 987654321098, 1u64 << 40, (1u64 << 40) + 1, (1u64 << 53) - 1, 1u64 << 53,
        (1u64 << 53) + 1, (1u64 << 53) + 3, (1u64 << 54) + 2, (1u64 << 54) + 6,
        u64::MAX, u64::MAX - 1024, u64::MAX / 3,
    ];
    let mut x: u64 = 0x9E37_79B9_7F4A_7C15;
    for _ in 0..2000 {
        x ^= x << 13;
        x ^= x >> 7;
        x ^= x << 17;
        samples.push(x >> (x % 60));
    }
    for k in 1..5u32 {
        let unit = 1024u64.pow(k);
        for m in 1..300u64 {
            samples.push(unit / 256 * m + unit);
        }
    }
    for b in samples {
        assert_eq!(format_bytes(b), float_format_bytes(b), "bytes = {}", b);
    }
}

#[test]
fn url_base64_uses_the_url_safe_alphabet() {
    let data: Vec<u8> = (0..=255u8).collect();
    let t = megabasterd_core::util::url_base64_encode(&data);
    assert!(t.chars().all(|c| c.is_ascii_alphanumeric() || c == '-' || c == '_'));
    assert!(!t.contains('='));
}
