use megabasterd_core::proxy::{proxy_entries_from_list, ProxyConfig, ProxyEntry, ProxyType, SmartProxyConfig, SmartProxyManager};

fn make_manager() -> SmartProxyManager {
    SmartProxyManager::new(SmartProxyConfig { ban_time_secs: 300, ..Default::default() })
}

const NOW: u64 = 1_000_000;

#[test]
fn test_block_and_unblock() {
    let mut mgr = make_manager();
    mgr.add_proxy(ProxyEntry { address: "1.2.3.4:8080".to_string(), proxy_type: ProxyType::Http, blocked_until: None });
    assert_eq!(mgr.count_available(NOW), 1);
    mgr.block_proxy("1.2.3.4:8080", NOW);
    assert_eq!(mgr.count_available(NOW), 0);
    assert_eq!(mgr.count_blocked(NOW), 1);
}

#[test]
fn test_get_proxy_excludes() {
    let mut mgr = make_manager();
    mgr.add_proxy(ProxyEntry { address: "1.2.3.4:8080".to_string(), proxy_type: ProxyType::Http, blocked_until: None });
    mgr.add_proxy(ProxyEntry { address: "5.6.7.8:3128".to_string(), proxy_type: ProxyType::Http, blocked_until: None });
    let proxy = mgr.get_proxy(&["1.2.3.4:8080".to_string()], NOW);
    assert_eq!(proxy.map(|(a, _)| a), Some("5.6.7.8:3128".to_string()));
}

#[test]
fn test_get_proxy_none_when_all_blocked() {
    let mut mgr = make_manager();
    mgr.add_proxy(ProxyEntry {
        address: "1.2.3.4:8080".to_string(),
        proxy_type: ProxyType::Http,
        blocked_until: Some(NOW + 300 * 1000),
    });
    let proxy = mgr.get_proxy(&[], NOW);
    assert!(proxy.is_none());
}

#[test]
fn bans_expire() {
    let mut mgr = make_manager();
    mgr.add_proxy(ProxyEntry { address: "a:1".to_string(), proxy_type: ProxyType::Socks5, blocked_until: None });
    mgr.block_proxy("a:1", NOW);
    assert_eq!(mgr.count_blocked(NOW + 299_999), 1);
    assert_eq!(mgr.count_blocked(NOW + 300_000), 0);
    assert_eq!(mgr.get_proxy(&[], NOW + 300_000), Some(("a:1".to_string(), ProxyType::Socks5)));
    mgr.block_proxy("unknown:2", NOW);
    assert_eq!(mgr.count_total(), 1);
}

#[test]
fn first_available_without_random_pick() {
    let mut mgr = SmartProxyManager::new(SmartProxyConfig { random_select: false, ..Default::default() });
    mgr.add_proxy(ProxyEntry { address: "a:1".to_string(), proxy_type: ProxyType::Http, blocked_until: Some(NOW + 1) });
    mgr.add_proxy(ProxyEntry { address: "b:2".to_string(), proxy_type: ProxyType::Socks5, blocked_until: None });
    mgr.add_proxy(ProxyEntry { address: "c:3".to_string(), proxy_type: ProxyType::Http, blocked_until: None });
    assert_eq!(mgr.get_proxy(&[], NOW), Some(("b:2".to_string(), ProxyType::Socks5)));
    assert_eq!(mgr.get_proxy_at(&[], NOW, 1), Some(("c:3".to_string(), ProxyType::Http)));
    assert_eq!(mgr.get_proxy_at(&[], NOW, 2), None);
    assert_eq!(mgr.count_blocked(NOW) + mgr.count_available(NOW), mgr.count_total());
}

#[test]
fn random_pick_stays_available() {
    let mut mgr = make_manager();
    for i in 0..5 {
        mgr.add_proxy(ProxyEntry { address: format!("h{}:1", i), proxy_type: ProxyType::Http, blocked_until: None });
    }
    let excluded = vec!["h0:1".to_string(), "h1:1".to_string()];
    for _ in 0..20 {
        let (a, _) = mgr.get_proxy(&excluded, NOW).unwrap();
        assert!(!excluded.contains(&a));
    }
}

#[test]
fn smart_proxy_defaults() {
    let c = SmartProxyConfig::default();
    assert_eq!(c.ban_time_secs, 300);
    assert_eq!(c.timeout_ms, 5000);
    assert_eq!(c.autorefresh_min, 60);
    assert!(c.random_select && c.reset_slot_proxy && !c.force_smart_proxy);
    assert!(c.proxy_list_url.is_none());
}

#[test]
fn proxy_urls() {
    let mut p = ProxyConfig { proxy_type: ProxyType::Http, host: "proxy.local".to_string(), port: 3128, username: None, password: None };
    assert_eq!(p.url(), "http://proxy.local:3128");
    p.username = Some("u".to_string());
    assert_eq!(p.url(), "http://proxy.local:3128");
    p.password = Some("p".to_string());
    p.proxy_type = ProxyType::Socks5;
    assert_eq!(p.url(), "socks5://u:p@proxy.local:3128");
}

#[test]
fn list_items() {
    let entries = proxy_entries_from_list(&[
        (Some("1.1.1.1:80".to_string()), Some("http".to_string())),
        (Some(String::new()), Some("socks".to_string())),
        (None, None),
        (Some("2.2.2.2:1080".to_string()), Some("socks".to_string())),
        (Some("3.3.3.3:8080".to_string()), None),
    ]);
    assert_eq!(entries.len(), 3);
    assert_eq!(entries[0].address, "1.1.1.1:80");
    assert_eq!(entries[0].proxy_type, ProxyType::Http);
    assert_eq!(entries[1].proxy_type, ProxyType::Socks5);
    assert_eq!(entries[2].proxy_type, ProxyType::Http);
    assert!(entries.iter().all(|e| e.blocked_until.is_none()));
}
