use megabasterd_core::clipboard::{ClipboardMonitor, ClipboardWatch};

#[test]
fn monitor_switch() {
    let mut m = ClipboardMonitor::new(true);
    assert!(m.is_enabled());
    m.set_enabled(false);
    assert!(!m.is_enabled());
}

#[test]
fn new_texts_are_searched_once() {
    let mut w = ClipboardWatch::new();
    let text = "see https://mega.nz/file/ABC#KEY".to_string();
    assert_eq!(w.poll(true, Some(text.clone())).len(), 1);
    assert!(w.poll(true, Some(text.clone())).is_empty());
    assert!(w.poll(false, Some("https://mega.nz/file/X#Y".to_string())).is_empty());
    assert_eq!(w.last_content, text);
    assert!(w.poll(true, None).is_empty());
    assert!(w.poll(true, Some("no links".to_string())).is_empty());
    assert_eq!(w.last_content, "no links");
    assert_eq!(w.poll(true, Some(text)).len(), 1);
}
