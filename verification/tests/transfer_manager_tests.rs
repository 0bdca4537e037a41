use megabasterd_core::download::DownloadParams;
use megabasterd_core::transfer_manager::{MoveDirection, TransferManager};

fn params(url: &str) -> DownloadParams {
    DownloadParams {
        url: url.to_string(),
        file_id: String::new(),
        file_key: String::new(),
        file_name: None,
        file_size: None,
        download_path: "/d".to_string(),
        file_pass: None,
        file_noexpire: None,
        mega_account_email: None,
        custom_chunks_dir: None,
        slots: 4,
    }
}

fn urls(t: &TransferManager) -> Vec<String> {
    t.wait_queue.iter().map(|(_, p)| p.url.clone()).collect()
}

#[test]
fn queue_order_and_moves() {
    let mut t = TransferManager::new(2);
    let ids = t.add_downloads(vec![params("a"), params("b"), params("c"), params("d")]);
    assert_eq!(ids.len(), 4);
    assert_eq!(t.get_queued_count(), 4);
    assert_eq!(urls(&t), ["a", "b", "c", "d"]);
    t.move_to_top(ids[2]);
    assert_eq!(urls(&t), ["c", "a", "b", "d"]);
    t.move_to_bottom(ids[0]);
    assert_eq!(urls(&t), ["c", "b", "d", "a"]);
    t.move_up(ids[3]);
    assert_eq!(urls(&t), ["c", "d", "b", "a"]);
    t.move_down(ids[3]);
    assert_eq!(urls(&t), ["c", "b", "d", "a"]);
    t.move_up(ids[2]);
    t.move_down(ids[0]);
    assert_eq!(urls(&t), ["c", "b", "d", "a"]);
    t.move_to_top(12345);
    assert_eq!(urls(&t), ["c", "b", "d", "a"]);
}

#[test]
fn starting_respects_the_limit() {
    let mut t = TransferManager::new(3);
    t.add_downloads(vec![params("a"), params("b"), params("c"), params("d")]);
    assert!(t.take_startable(3).is_empty());
    assert!(t.take_startable(5).is_empty());
    let started: Vec<String> = t.take_startable(1).into_iter().map(|(_, p)| p.url).collect();
    assert_eq!(started, ["a", "b"]);
    assert_eq!(t.get_queued_count(), 2);
    let started = t.take_startable(0);
    assert_eq!(started.len(), 2);
    assert_eq!(t.get_queued_count(), 0);
    t.set_max_running(0);
    assert_eq!(t.max_running, 1);
    t.set_max_running(70);
    assert_eq!(t.max_running, 50);
    t.set_max_running(9);
    assert_eq!(t.max_running, 9);
}

#[test]
fn moves_by_name() {
    let mut t = TransferManager::new(2);
    let ids = t.add_downloads(vec![params("a"), params("b"), params("c")]);
    assert!(t.move_download(ids[2], "top").is_ok());
    assert_eq!(urls(&t), ["c", "a", "b"]);
    assert!(t.move_download(ids[2], "down").is_ok());
    assert_eq!(urls(&t), ["a", "c", "b"]);
    assert!(t.move_download(ids[0], "bottom").is_ok());
    assert_eq!(urls(&t), ["c", "b", "a"]);
    assert!(t.move_download(ids[0], "up").is_ok());
    assert_eq!(urls(&t), ["c", "a", "b"]);
    assert_eq!(t.move_download(ids[0], "sideways"), Err("Unknown direction: sideways".to_string()));
    assert_eq!(urls(&t), ["c", "a", "b"]);
    assert_eq!(MoveDirection::parse("up"), Ok(MoveDirection::Up));
}
