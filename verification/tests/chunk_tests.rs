use megabasterd_core::download::chunk::{
    calculate_chunk_offset, calculate_chunk_size, calculate_last_written_chunk, gen_chunk_url, is_valid_chunk_id,
};

#[test]
fn test_chunk_offsets() {
    assert_eq!(calculate_chunk_offset(1, 20), 0);
    assert_eq!(calculate_chunk_offset(2, 20), 128 * 1024);
    assert_eq!(calculate_chunk_offset(3, 20), 384 * 1024);
    assert_eq!(calculate_chunk_offset(4, 20), 768 * 1024);
    assert_eq!(calculate_chunk_offset(5, 20), 1280 * 1024);
    assert_eq!(calculate_chunk_offset(6, 20), 1920 * 1024);
    assert_eq!(calculate_chunk_offset(7, 20), 2688 * 1024);
    assert_eq!(calculate_chunk_offset(8, 20), 3584 * 1024);
    assert_eq!(calculate_chunk_offset(9, 20), (3584 + 20 * 1024) * 1024);
}

#[test]
fn test_chunk_sizes() {
    let file_size = 100 * 1024 * 1024;
    assert_eq!(calculate_chunk_size(1, file_size, 20), 128 * 1024);
    assert_eq!(calculate_chunk_size(2, file_size, 20), 256 * 1024);
    assert_eq!(calculate_chunk_size(7, file_size, 20), 7 * 128 * 1024);
    assert_eq!(calculate_chunk_size(8, file_size, 20), 20 * 1024 * 1024);
}

#[test]
fn test_chunk_size_clamps_to_file_size() {
    let file_size = 200 * 1024;
    assert_eq!(calculate_chunk_size(1, file_size, 20), 128 * 1024);
    assert_eq!(calculate_chunk_size(2, file_size, 20), 72 * 1024);
    assert_eq!(calculate_chunk_size(3, file_size, 20), 0);
}

#[test]
fn test_gen_chunk_url() {
    let url = "https://g.api.mega.co.nz/dl/ABCDEF";
    assert_eq!(gen_chunk_url(url, 0, 128 * 1024), format!("{}/0-{}", url, 128 * 1024 - 1));
    assert_eq!(
        gen_chunk_url(url, 128 * 1024, 256 * 1024),
        format!("{}/{}-{}", url, 128 * 1024, 128 * 1024 + 256 * 1024 - 1)
    );
}

#[test]
fn open_ended_chunk_url() {
    assert_eq!(gen_chunk_url("u", 42, 0), "u/42");
}

#[test]
fn last_written_chunk_values() {
    assert_eq!(calculate_last_written_chunk(0, 20), 0);
    assert_eq!(calculate_last_written_chunk(128 * 1024, 20), 1);
    assert_eq!(calculate_last_written_chunk(128 * 1024 + 1, 20), 1);
    assert_eq!(calculate_last_written_chunk(384 * 1024 - 1, 20), 1);
    assert_eq!(calculate_last_written_chunk(384 * 1024, 20), 2);
    assert_eq!(calculate_last_written_chunk(3584 * 1024, 20), 7);
    assert_eq!(calculate_last_written_chunk(3584 * 1024 + 20 * 1024 * 1024, 20), 8);
    assert_eq!(calculate_last_written_chunk(1, 20), 0);
}

#[test]
fn chunks_tile_a_file() {
    let file_size: u64 = 50 * 1024 * 1024 + 17;
    let mut id = 1;
    let mut covered = 0;
    while is_valid_chunk_id(id, file_size, 20) {
        assert_eq!(calculate_chunk_offset(id, 20), covered);
        covered += calculate_chunk_size(id, file_size, 20);
        id += 1;
    }
    assert_eq!(covered, file_size);
    assert!(!is_valid_chunk_id(id, file_size, 20));
}

#[test]
fn last_written_chunk_of_large_files() {
    let n: u64 = 3584 * 1024 + 100_001 * 1024 * 1024;
    assert_eq!(calculate_last_written_chunk(n, 1), 100_008);
    assert_eq!(calculate_last_written_chunk(n - 1, 1), 100_007);
    assert_eq!(calculate_last_written_chunk(u64::MAX, 0), 7);
    assert_eq!(calculate_last_written_chunk(3584 * 1024 - 1, 0), 6);
    let k = calculate_last_written_chunk(u64::MAX, 1);
    assert!(calculate_chunk_offset(k + 1, 1) <= u64::MAX);
    assert_eq!(k, 7 + (u64::MAX / 1024 - 3584) / 1024);
}
