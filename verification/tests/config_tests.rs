use megabasterd_core::config::{
    megabasterd_dir, platform_data_dir, AppConfig, Platform, CHUNK_SIZE_MULTI, SIM_TRANSFERENCES_DEFAULT, WORKERS_DEFAULT,
};

#[test]
fn test_defaults_match_constants() {
    let cfg = AppConfig::default_for_home("/home/user");
    assert_eq!(cfg.max_downloads, SIM_TRANSFERENCES_DEFAULT);
    assert_eq!(cfg.default_slots, WORKERS_DEFAULT);
    assert_eq!(cfg.chunk_size_multi, CHUNK_SIZE_MULTI);
    assert!(cfg.monitor_clipboard);
    assert!(!cfg.verify_cbc_mac);
    assert_eq!(cfg.language, "EN");
}

#[test]
fn test_save_load_roundtrip() {
    let home = "/tmp/test_home".to_string();

    let mut cfg = AppConfig::default_for_home(&home);
    cfg.home_dir = home.clone();
    cfg.dark_mode = true;
    cfg.max_downloads = 8;
    cfg.proxy_host = Some("proxy.example.com".to_string());
    cfg.proxy_port = 3128;

    let stored = cfg.to_settings();

    let loaded = AppConfig::from_settings(AppConfig::default_for_home(&home), &stored, home);
    assert!(loaded.dark_mode);
    assert_eq!(loaded.max_downloads, 8);
    assert_eq!(loaded.proxy_host, Some("proxy.example.com".to_string()));
    assert_eq!(loaded.proxy_port, 3128);
}

#[test]
fn default_paths_follow_home() {
    let cfg = AppConfig::default_for_home("/home/user");
    assert_eq!(cfg.home_dir, "/home/user");
    assert_eq!(cfg.default_download_path, "/home/user/Downloads");
    assert_eq!(megabasterd_dir("/home/user"), "/home/user/.local/share/megabasterd");
    assert_eq!(cfg.proxy_port, 8080);
    assert!(cfg.use_slots);
    assert!(cfg.custom_chunks_dir.is_none());
}

#[test]
fn stored_text_forms() {
    let mut cfg = AppConfig::default_for_home("/h");
    cfg.use_proxy = true;
    cfg.proxy_user = None;
    let stored = cfg.to_settings();
    let get = |k: &str| stored.iter().find(|(key, _)| key == k).map(|(_, v)| v.clone());
    assert_eq!(stored.len(), 30);
    assert_eq!(get("use_proxy"), Some("yes".to_string()));
    assert_eq!(get("dark_mode"), Some("no".to_string()));
    assert_eq!(get("proxy_user"), Some(String::new()));
    assert_eq!(get("max_downloads"), Some("4".to_string()));
    assert_eq!(get("smartproxy_ban_time"), Some("300".to_string()));
    assert_eq!(get("clipboardspy"), Some("yes".to_string()));
    assert_eq!(get("download_path"), Some("/h/Downloads".to_string()));
}

#[test]
fn loading_tolerates_bad_values() {
    let base = AppConfig::default_for_home("/h");
    let stored = vec![
        ("max_downloads".to_string(), "many".to_string()),
        ("proxy_port".to_string(), "70000".to_string()),
        ("dark_mode".to_string(), "1".to_string()),
        ("use_slots".to_string(), "no".to_string()),
        ("proxy_host".to_string(), String::new()),
        ("download_path".to_string(), String::new()),
        ("language".to_string(), "ES".to_string()),
        ("default_slots".to_string(), "+12".to_string()),
    ];
    let loaded = AppConfig::from_settings(base, &stored, "/other".to_string());
    assert_eq!(loaded.home_dir, "/other");
    assert_eq!(loaded.max_downloads, SIM_TRANSFERENCES_DEFAULT);
    assert_eq!(loaded.proxy_port, 8080);
    assert!(loaded.dark_mode);
    assert!(!loaded.use_slots);
    assert_eq!(loaded.proxy_host, None);
    assert_eq!(loaded.default_download_path, "/h/Downloads");
    assert_eq!(loaded.language, "ES");
    assert_eq!(loaded.default_slots, 12);
}

#[test]
fn data_directories_per_platform() {
    assert_eq!(platform_data_dir(Platform::Linux, "/home/u", ""), "/home/u/.local/share/megabasterd");
    assert_eq!(
        platform_data_dir(Platform::MacOs, "/Users/u", ""),
        "/Users/u/Library/Application Support/com.megabasterd.app"
    );
    assert_eq!(platform_data_dir(Platform::Windows, "/home/u", "/appdata"), "/appdata/com.megabasterd.app");
    assert_eq!(megabasterd_dir("/home/u/"), "/home/u/.local/share/megabasterd");
    assert_eq!(megabasterd_dir(""), ".local/share/megabasterd");
}
