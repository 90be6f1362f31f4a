use radiodiodj::persist::config::{
    normalize_tuning, AppConfig, DeviceRef, NowPlayingConfig, TuningConfig,
};

#[test]
fn load_defaults_when_missing() {
    let cfg = AppConfig::default();
    assert!(cfg.get_paths("music").is_empty());
}

#[test]
fn add_remove_round_trips_to_disk() {
    let mut cfg = AppConfig::default();
    assert!(cfg.add_path("music", "/library".to_string()));
    // re-add returns false (already present)
    assert!(!cfg.add_path("music", "/library".to_string()));
    assert_eq!(cfg.get_paths("music").len(), 1);
    assert!(cfg.remove_path("music", "/library"));
    assert!(cfg.get_paths("music").is_empty());
}

#[test]
fn unknown_kind_is_noop() {
    let mut cfg = AppConfig::default();
    assert!(!cfg.add_path("bogus", "/x".to_string()));
    assert!(cfg.get_paths("bogus").is_empty());
    assert_eq!(cfg, AppConfig::default());
}

#[test]
fn now_playing_defaults_when_missing() {
    let np = AppConfig::default().now_playing;
    assert_eq!(np, NowPlayingConfig::default());
    assert!(np.file_enabled);
    assert!(np.webhook_enabled);
    assert!(np.webhook_url.is_none());
}

#[test]
fn tuning_defaults_when_missing() {
    assert_eq!(AppConfig::default().tuning, TuningConfig::default());
}

#[test]
fn set_tuning_clamps_and_round_trips() {
    let mut t = TuningConfig::default();
    t.interleave.jingle_every = -3; // -> 0 (disabled floor)
    t.interleave.commercial_every = 0; // -> 0 (disabled, stays)
    t.auto_playlist.auto_playlist_buffer = 4;
    t.auto_playlist.auto_playlist_threshold = 99; // -> clamped to buffer (4)
    t.cache.max_cache_bytes = 1; // -> 16 MiB floor
    t.player.read_retry_backoffs_ms = vec![0, 5]; // 0 -> 1
    let clamped = normalize_tuning(t);
    assert_eq!(clamped.interleave.jingle_every, 0);
    assert_eq!(clamped.interleave.commercial_every, 0);
    assert_eq!(clamped.auto_playlist.auto_playlist_threshold, 4);
    assert_eq!(clamped.cache.max_cache_bytes, 16 * 1024 * 1024);
    assert_eq!(clamped.player.read_retry_backoffs_ms, vec![1, 5]);
    // What was stored is already in range: storing it again changes nothing.
    assert_eq!(normalize_tuning(clamped.clone()), clamped);
}

#[test]
fn the_default_tuning_is_already_in_range() {
    assert_eq!(normalize_tuning(TuningConfig::default()), TuningConfig::default());
    let t = TuningConfig::default();
    assert_eq!(t.interleave.jingle_every, 4);
    assert_eq!(t.interleave.commercial_every, 8);
    assert_eq!(t.cache.max_cache_bytes, 150 * 1024 * 1024);
    assert_eq!(t.auto_playlist.net_retry_backoffs_ms, vec![1000, 2000, 5000]);
    assert_eq!(t.player.read_retry_backoffs_ms, vec![500, 1000, 2000]);
}

#[test]
fn empty_schedules_fall_back_to_the_defaults_and_floors_apply() {
    let mut t = TuningConfig::default();
    t.auto_playlist.net_retry_backoffs_ms = vec![];
    t.player.read_retry_backoffs_ms = vec![];
    t.auto_playlist.auto_playlist_buffer = 0;
    t.auto_playlist.auto_playlist_threshold = 0;
    t.auto_playlist.history_cap = 0;
    t.interleave.commercial_bucket_multiplier = -2;
    t.interleave.commercial_bucket_min = -1;
    t.player.read_watchdog_timeout_ms = 0;
    t.player.open_retry_interval_ms = 0;
    let n = normalize_tuning(t);
    assert_eq!(n.auto_playlist.net_retry_backoffs_ms, vec![1000, 2000, 5000]);
    assert_eq!(n.player.read_retry_backoffs_ms, vec![500, 1000, 2000]);
    assert_eq!(n.auto_playlist.auto_playlist_buffer, 1);
    assert_eq!(n.auto_playlist.auto_playlist_threshold, 1);
    assert_eq!(n.auto_playlist.history_cap, 1);
    assert_eq!(n.interleave.commercial_bucket_multiplier, 1);
    assert_eq!(n.interleave.commercial_bucket_min, 0);
    assert_eq!(n.player.read_watchdog_timeout_ms, 1);
    assert_eq!(n.player.open_retry_interval_ms, 1);
}

#[test]
fn removing_an_added_path_restores_the_path_list() {
    let mut cfg = AppConfig::default();
    cfg.add_path("jingle", "/a".to_string());
    let before = cfg.clone();
    assert!(cfg.add_path("jingle", "/b".to_string()));
    assert!(cfg.remove_path("jingle", "/b"));
    assert_eq!(cfg, before);
}

#[test]
fn each_kind_keeps_its_own_paths() {
    let mut cfg = AppConfig::default();
    cfg.add_path("music", "/m".to_string());
    cfg.add_path("commercial", "/c".to_string());
    cfg.add_path("jingle", "/j".to_string());
    assert_eq!(cfg.get_paths("music"), vec!["/m".to_string()]);
    assert_eq!(cfg.get_paths("commercial"), vec!["/c".to_string()]);
    assert_eq!(cfg.get_paths("jingle"), vec!["/j".to_string()]);
    assert!(!cfg.remove_path("music", "/c"));
    cfg.main_device = Some(DeviceRef { name: "hw:USB,0".into(), description: "Headphones".into() });
    assert!(cfg.remove_path("music", "/m"));
    assert!(cfg.main_device.is_some());
}

#[test]
fn the_rotation_windows_come_from_the_tuning() {
    let mut t = TuningConfig::default();
    assert_eq!((t.rotation.title_window_min, t.rotation.artist_window_min), (180, 45));
    t.rotation.title_window_min = 30;
    let r = radiodiodj::playlist::generate::Rotation::from_config(&t);
    assert_eq!((r.title_window_min, r.artist_window_min), (30, 45));
    assert_eq!(normalize_tuning(t.clone()).rotation, t.rotation);
}
