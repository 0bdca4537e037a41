use megabasterd_core::download::speed::SpeedMeter;
use megabasterd_core::crypto::{aes_ctr_decrypt, aes_ctr_encrypt, forward_mega_link_key_iv};
use megabasterd_core::download::chunk::{calculate_chunk_offset, calculate_chunk_size, chunk_offset_in_range};
use megabasterd_core::download::dispenser::ChunkIdDispenser;
use megabasterd_core::download::worker::{chunk_file_name, chunk_request, chunk_tmp_file_name, ChunkAction, ChunkResponse, ChunkWorker, StreamOutcome};
use megabasterd_core::download::writer::{resume_appends, ChunkWriter};
use megabasterd_core::download::{end_of_run, kept_after_close, resume_truncate_len};
use megabasterd_core::download::{
    chunks_dir, clamp_slots, display_name, download_info, download_record, eta_secs, output_file_name,
    resume_start_chunk, throttle_limit, DownloadParams, DownloadState,
};
use megabasterd_core::proxy::{ProxyEntry, ProxyType, SmartProxyConfig, SmartProxyManager};

#[test]
fn dispenser_order() {
    // 600 KiB: chunks 1 (0..128K), 2 (128K..384K), 3 (384K..768K) start inside the file.
    let mut d = ChunkIdDispenser::new(1, 600 * 1024, 20);
    assert_eq!(d.next(), Some(1));
    assert_eq!(d.next(), Some(2));
    d.reject(1);
    d.reject(2);
    assert_eq!(d.next(), Some(2));
    assert_eq!(d.next(), Some(1));
    assert_eq!(d.next(), Some(3));
    assert_eq!(d.next(), None);
    assert_eq!(d.next, 5);
    assert!(d.can_dispense());
    let stuck = ChunkIdDispenser::new(0, 10, 20);
    assert!(!stuck.can_dispense());
}

#[test]
fn offsets_in_range() {
    assert!(!chunk_offset_in_range(0, 20));
    assert!(chunk_offset_in_range(1, 20));
    assert!(chunk_offset_in_range(1_000_000, 20));
    assert!(!chunk_offset_in_range(u64::MAX, 20));
    assert!(!chunk_offset_in_range(1 << 40, u32::MAX));
}

#[test]
fn requests_and_names() {
    let q = chunk_request(2, 1024 * 1024, 20, "https://dl/f").unwrap();
    assert_eq!((q.offset, q.size), (128 * 1024, 256 * 1024));
    assert_eq!(q.url, format!("https://dl/f/{}-{}", 128 * 1024, 384 * 1024 - 1));
    assert!(chunk_request(5, 1024, 20, "u").is_none());
    assert_eq!(chunk_file_name(12), ".chunk12");
    assert_eq!(chunk_tmp_file_name(3), ".chunk3.tmp");
}

#[test]
fn worker_decisions() {
    let mut d = ChunkIdDispenser::new(4, 10 << 20, 20);
    let mut w = ChunkWorker::new();
    assert_eq!(w.on_response(4, ChunkResponse::Status(200), &mut d), ChunkAction::Stream);
    assert!(d.rejected.is_empty());
    assert_eq!(w.on_response(4, ChunkResponse::Status(206), &mut d), ChunkAction::Stream);
    assert_eq!(w.on_response(4, ChunkResponse::Status(509), &mut d), ChunkAction::Retry { wait_secs: 5, switch_proxy: true });
    assert_eq!(w.on_response(4, ChunkResponse::Status(403), &mut d), ChunkAction::Retry { wait_secs: 2, switch_proxy: false });
    assert_eq!(w.error_count, 0);
    assert_eq!(w.on_response(4, ChunkResponse::Status(429), &mut d), ChunkAction::Retry { wait_secs: 1, switch_proxy: false });
    assert_eq!(w.error_count, 1);
    assert_eq!(w.on_response(4, ChunkResponse::Status(500), &mut d), ChunkAction::Retry { wait_secs: 4, switch_proxy: false });
    assert_eq!(w.on_response(4, ChunkResponse::NetworkError, &mut d), ChunkAction::Retry { wait_secs: 8, switch_proxy: false });
    assert_eq!(w.error_count, 3);
    assert_eq!(d.rejected, vec![4, 4, 4, 4, 4]);
    w.chunk_done();
    assert_eq!(w.error_count, 0);
    for _ in 0..49 {
        assert!(matches!(w.on_response(4, ChunkResponse::NetworkError, &mut d), ChunkAction::Retry { .. }));
    }
    assert_eq!(w.on_response(4, ChunkResponse::NetworkError, &mut d), ChunkAction::Fail);
}

#[test]
fn worker_switches_proxies() {
    let mut pool = SmartProxyManager::new(SmartProxyConfig { random_select: false, ..Default::default() });
    pool.add_proxy(ProxyEntry { address: "a:1".to_string(), proxy_type: ProxyType::Http, blocked_until: None });
    pool.add_proxy(ProxyEntry { address: "b:2".to_string(), proxy_type: ProxyType::Http, blocked_until: None });
    let mut w = ChunkWorker::new();
    assert_eq!(w.switch_proxy(&mut pool, 1000), Some(ProxyType::Http));
    assert_eq!(w.current_proxy, Some("a:1".to_string()));
    w.switch_proxy(&mut pool, 1000);
    assert_eq!(w.current_proxy, Some("b:2".to_string()));
    assert_eq!(w.excluded_proxies, vec!["a:1".to_string()]);
    assert_eq!(pool.count_blocked(1000), 1);
    let ban_ms = pool.config.ban_time_secs as u64 * 1000;
    assert_eq!(pool.proxies[0].blocked_until, Some(1000 + ban_ms));
    assert_eq!(pool.proxies[1].blocked_until, None);
    assert_eq!(w.switch_proxy(&mut pool, 1000), None);
    assert_eq!(w.current_proxy, None);
    assert_eq!(pool.count_blocked(1000), 2);
}

#[test]
fn writer_decrypts_in_place() {
    let key = [7u8; 16];
    let iv = [9u8, 9, 9, 9, 9, 9, 9, 9, 0, 0, 0, 0, 0, 0, 0, 0];
    let file_size = 128 * 1024 + 100;
    let plain: Vec<u8> = (0..file_size).map(|i| (i % 251) as u8).collect();
    let whole = aes_ctr_encrypt(&plain, &key, &iv).unwrap();
    let mut w = ChunkWriter::new(1, file_size as u64, 20);
    assert_eq!((w.chunk_id, w.bytes_written), (1, 0));
    assert_eq!(w.current_chunk_size(), 128 * 1024);
    let (first, done) = w.write_chunk(&whole[..128 * 1024], &key, &iv).unwrap();
    assert!(!done);
    assert_eq!(first, plain[..128 * 1024].to_vec());
    assert_eq!((w.chunk_id, w.bytes_written), (2, 128 * 1024));
    assert_eq!(w.current_chunk_size(), 100);
    let (second, done) = w.write_chunk(&whole[128 * 1024..], &key, &iv).unwrap();
    assert!(done);
    assert_eq!(second, plain[128 * 1024..].to_vec());
    assert_eq!(w.chunk_id, 2);
    assert_eq!(forward_mega_link_key_iv(&iv, 128 * 1024)[8..], (8192u64).to_be_bytes());
    assert!(w.write_chunk(&[1, 2, 3], &[1u8; 5], &iv).is_err());
    assert_eq!(w.bytes_written, file_size as u64);

    let resumed = ChunkWriter::new(3, 1 << 30, 20);
    assert_eq!(resumed.bytes_written, calculate_chunk_offset(3, 20));
    assert_eq!(ChunkWriter::new(0, 5, 20).chunk_id, 1);
    assert!(resume_appends(2) && !resume_appends(1) && !resume_appends(0));
    assert_eq!(calculate_chunk_size(1, 5, 20), 5);
}

fn params() -> DownloadParams {
    DownloadParams {
        url: "https://mega.nz/file/ID#KEY".to_string(),
        file_id: "ID".to_string(),
        file_key: "KEY".to_string(),
        file_name: None,
        file_size: Some(10),
        download_path: "/downloads".to_string(),
        file_pass: None,
        file_noexpire: Some("tok".to_string()),
        mega_account_email: None,
        custom_chunks_dir: None,
        slots: 4,
    }
}

#[test]
fn download_helpers() {
    assert_eq!(clamp_slots(0), 1);
    assert_eq!(clamp_slots(7), 7);
    assert_eq!(clamp_slots(99), 20);
    assert_eq!(throttle_limit(true, 100), 102_400);
    assert_eq!(throttle_limit(false, 100), 0);
    assert_eq!(eta_secs(1000, 0), None);
    assert_eq!(eta_secs(1000, 300), Some(3));
    assert_eq!(DownloadState::Running.label(), "Running");
    assert_eq!(DownloadState::Failed("bad \"x\"".to_string()).label(), "Failed(\"bad \\\"x\\\"\")");
    assert_eq!(DownloadState::Failed("e".to_string()).label(), format!("{:?}", DownloadState::Failed("e".to_string())));
    assert!(DownloadState::Running.is_running() && DownloadState::Paused.is_paused());

    let info = download_info("id".to_string(), "f".to_string(), 100, 40, 20, &DownloadState::Paused, 3, "u".to_string());
    assert_eq!(info.eta_secs, Some(3));
    assert_eq!(info.state, "Paused");
    let info = download_info("id".to_string(), "f".to_string(), 10, 40, 20, &DownloadState::Queued, 3, "u".to_string());
    assert_eq!(info.eta_secs, Some(0));

    let mut p = params();
    assert_eq!(display_name(&p), "unknown");
    assert_eq!(output_file_name(&p), "download");
    let dir = chunks_dir(&p);
    assert!(dir.starts_with("/downloads/.MEGABASTERD_CHUNKS_"));
    assert_eq!(dir.len(), "/downloads/.MEGABASTERD_CHUNKS_".len() + 40);
    p.custom_chunks_dir = Some("/tmp/c".to_string());
    assert_eq!(chunks_dir(&p), "/tmp/c");
    p.file_name = Some("x.bin".to_string());
    assert_eq!(output_file_name(&p), "x.bin");

    let r = download_record(&p, "x.bin", 10);
    assert_eq!((r.url.as_str(), r.path.as_str(), r.filename.as_str(), r.filekey.as_str(), r.filesize), (p.url.as_str(), "/downloads", "x.bin", "KEY", 10));
    assert_eq!(r.filenoexpire, Some("tok".to_string()));
    assert_eq!(r.custom_chunks_dir, Some("/tmp/c".to_string()));

    assert_eq!(resume_start_chunk(None, 20), 1);
    assert_eq!(resume_start_chunk(Some(0), 20), 1);
    assert_eq!(resume_start_chunk(Some(128 * 1024), 20), 2);
    assert_eq!(resume_start_chunk(Some(200 * 1024), 20), 2);
    assert_eq!(resume_start_chunk(Some(384 * 1024), 20), 3);
}

#[test]
fn speed_over_the_window() {
    let mut m = SpeedMeter::new();
    let t0 = 100_000;
    m.attach(7, 1000);
    assert_eq!(m.get_speed(7, t0), Some(0));
    assert_eq!(m.get_speed(8, t0), None);
    m.update(7, 4000, t0);
    m.update(7, 10_000, t0 + 1000);
    assert_eq!(m.window_bytes(7, t0 + 1000), Some(9000));
    assert_eq!(m.get_speed(7, t0 + 1000), Some(3000));
    m.update(7, 9000, t0 + 2000);
    assert_eq!(m.downloads[0].1.samples.len(), 2);
    assert_eq!(m.get_speed(7, t0 + 3500), Some(2000));
    m.update(7, 9000, t0 + 3500);
    assert_eq!(m.downloads[0].1.samples.len(), 1);
    m.attach(9, 0);
    m.update(9, 300, t0 + 3500);
    assert!(m.speeds_in_range(t0 + 3500));
    assert_eq!(m.get_global_speed(t0 + 3500), 2100);
    m.attach(7, 0);
    assert_eq!(m.get_speed(7, t0 + 3500), Some(0));
    m.detach(7);
    assert_eq!(m.get_speed(7, t0 + 3500), None);
    assert_eq!(m.downloads.len(), 1);
    assert_eq!(SpeedMeter::eta_secs(90, 30), Some(3));
}

#[test]
fn ctr_slices_decrypt_at_forwarded_iv() {
    let key = [3u8; 16];
    let iv = [1u8, 2, 3, 4, 5, 6, 7, 8, 0, 0, 0, 0, 0, 0, 0, 0];
    let cipher: Vec<u8> = (0..5000u32).map(|i| (i * 7 % 256) as u8).collect();
    let whole = aes_ctr_decrypt(&cipher, &key, &iv).unwrap();
    for off in [0usize, 16, 160, 1024, 4096] {
        for len in [0usize, 1, 15, 16, 100] {
            if off + len <= cipher.len() {
                let fwd = forward_mega_link_key_iv(&iv, off as u64);
                let part = aes_ctr_decrypt(&cipher[off..off + len], &key, &fwd).unwrap();
                assert_eq!(part, whole[off..off + len].to_vec());
            }
        }
    }
}

#[test]
fn resume_cuts_back_to_whole_chunks() {
    assert_eq!(resume_truncate_len(0, 20), 0);
    assert_eq!(resume_truncate_len(128 * 1024 - 1, 20), 0);
    assert_eq!(resume_truncate_len(200 * 1024, 20), 128 * 1024);
    assert_eq!(resume_start_chunk(Some(200 * 1024), 20), 2);
    let n = 3584 * 1024 + 3 * 20 * 1024 * 1024 + 17;
    assert_eq!(resume_start_chunk(Some(n), 20), 11);
    assert_eq!(resume_truncate_len(n, 20), calculate_chunk_offset(11, 20));
}

#[test]
fn closing_keeps_downloads_under_way() {
    let states = vec![
        DownloadState::Running,
        DownloadState::Finished,
        DownloadState::Paused,
        DownloadState::Failed("x".to_string()),
        DownloadState::Cancelled,
        DownloadState::Queued,
    ];
    assert_eq!(kept_after_close(&states), vec![true, false, true, false, false, true]);
    let active: Vec<bool> = states.iter().map(|s| s.is_active()).collect();
    assert_eq!(active, vec![true, false, false, false, false, false]);
    assert!(DownloadState::Provisioning.is_active() && DownloadState::WaitingToStart.is_active());
    assert!(matches!(end_of_run(true), (DownloadState::Cancelled, false)));
    assert!(matches!(end_of_run(false), (DownloadState::Finished, true)));
}

#[test]
fn streamed_chunks_are_written_or_given_back() {
    let mut d = ChunkIdDispenser::new(1, 10 * 1024 * 1024, 20);
    let mut w = ChunkWorker::new();
    let first = d.next().unwrap();
    w.error_count = 3;
    assert!(w.after_stream(first, StreamOutcome::Written, &mut d));
    assert_eq!(w.error_count, 0);
    let second = d.next().unwrap();
    assert!(!w.after_stream(second, StreamOutcome::Failed, &mut d));
    assert_eq!(d.next(), Some(second));
    assert!(!w.after_stream(second, StreamOutcome::Cancelled, &mut d));
    assert_eq!(d.next(), Some(second));
}

#[test]
fn progress_after_many_updates() {
    let mut p = megabasterd_core::download::progress::ProgressTracker::new(100);
    for d in [10i64, -5, 40, -20, 1000] {
        p.add_partial(d);
    }
    assert_eq!(p.get(), 1125);
    assert_eq!(p.flush(), 1125);
    assert_eq!(p.get(), 1125);
    assert_eq!(p.flush(), 1125);
}
