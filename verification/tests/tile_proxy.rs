use rsts::config::{Config, TileSources};
use rsts::reply::{Body, Reply};
use rsts::tiles::{
    cache_lookup_step, eviction_step, CacheAction, CacheLookup, EvictionAction,
    cache_file_name, cache_limit_bytes, fill_tile_url, must_evict, tile_key, tile_proxy_step,
    TileAction, TileEvent, TileState, BYTES_PER_GB,
};

fn config() -> Config {
    Config {
        martin_url: "http://martin:3000".to_string(),
        thread_count: None,
        cache_size_gb: None,
        tile_sources: TileSources::from_entries(vec![
            ("osm".to_string(), "https://tile.example.org/{z}/{x}/{y}.png?s={scale}".to_string()),
            ("sat".to_string(), "https://sat.example.org/{scale}x/{z}-{x}-{y}".to_string()),
        ]),
    }
}

fn request(id: &str, scale: Option<&str>) -> TileEvent {
    TileEvent::Requested { id: id.to_string(), z: 3, x: 4, y: 5, scale: scale.map(|s| s.to_string()) }
}

fn text(status: u16, message: &str) -> Reply {
    Reply {
        status,
        content_type: "text/plain; charset=utf-8".to_string(),
        body: Body::Text(message.to_string()),
    }
}

#[test]
fn tile_request_plans_key_and_url() {
    let c = config();
    let (state, action) = tile_proxy_step(&c, TileState::Idle, request("osm", None));
    match state {
        TileState::CheckingCache { key, url } => {
            assert_eq!(key, "osm:3/4/5/1");
            assert_eq!(url, "https://tile.example.org/3/4/5.png?s=1");
        }
        other => panic!("unexpected state {:?}", other),
    }
    match action {
        TileAction::LookupCache { key } => assert_eq!(key, "osm:3/4/5/1"),
        other => panic!("unexpected action {:?}", other),
    }
}

#[test]
fn tile_request_uses_given_scale() {
    let c = config();
    let (state, _) = tile_proxy_step(&c, TileState::Idle, request("sat", Some("2")));
    match state {
        TileState::CheckingCache { key, url } => {
            assert_eq!(key, "sat:3/4/5/2");
            assert_eq!(url, "https://sat.example.org/2x/3-4-5");
        }
        other => panic!("unexpected state {:?}", other),
    }
}

#[test]
fn unknown_tile_source_is_not_found() {
    let c = config();
    let (state, action) = tile_proxy_step(&c, TileState::Idle, request("nope", None));
    assert!(matches!(state, TileState::Finished));
    match action {
        TileAction::Respond { reply } => assert_eq!(reply, text(404, "tile source not found")),
        other => panic!("unexpected action {:?}", other),
    }
}

#[test]
fn cache_hit_serves_cached_bytes() {
    let c = config();
    let state = TileState::CheckingCache { key: "k".to_string(), url: "u".to_string() };
    let (next, action) = tile_proxy_step(&c, state, TileEvent::CacheHit { bytes: vec![1, 2, 3] });
    assert!(matches!(next, TileState::Finished));
    match action {
        TileAction::Respond { reply } => {
            assert_eq!(reply.status, 200);
            assert_eq!(reply.content_type, "image/png");
            assert_eq!(reply.body, Body::Bytes(vec![1, 2, 3]));
        }
        other => panic!("unexpected action {:?}", other),
    }
}

#[test]
fn cache_miss_fetches_upstream() {
    let c = config();
    let state = TileState::CheckingCache { key: "k".to_string(), url: "https://u".to_string() };
    let (next, action) = tile_proxy_step(&c, state, TileEvent::CacheMiss);
    match next {
        TileState::Fetching { key } => assert_eq!(key, "k"),
        other => panic!("unexpected state {:?}", other),
    }
    match action {
        TileAction::Fetch { url } => assert_eq!(url, "https://u"),
        other => panic!("unexpected action {:?}", other),
    }
}

#[test]
fn successful_fetch_is_stored_and_relayed() {
    let c = config();
    let state = TileState::Fetching { key: "osm:3/4/5/1".to_string() };
    let event = TileEvent::Fetched { status: 200, content_type: Some("image/jpeg".to_string()), body: vec![9, 8] };
    let (_, action) = tile_proxy_step(&c, state, event);
    match action {
        TileAction::StoreAndRespond { key, bytes, reply } => {
            assert_eq!(key, "osm:3/4/5/1");
            assert_eq!(bytes, vec![9, 8]);
            assert_eq!(reply.status, 200);
            assert_eq!(reply.content_type, "image/jpeg");
            assert_eq!(reply.body, Body::Bytes(vec![9, 8]));
        }
        other => panic!("unexpected action {:?}", other),
    }
}

#[test]
fn failed_status_is_relayed_not_stored() {
    let c = config();
    let state = TileState::Fetching { key: "k".to_string() };
    let event = TileEvent::Fetched { status: 404, content_type: None, body: vec![] };
    let (_, action) = tile_proxy_step(&c, state, event);
    match action {
        TileAction::Respond { reply } => {
            assert_eq!(reply.status, 404);
            assert_eq!(reply.content_type, "image/png");
        }
        other => panic!("unexpected action {:?}", other),
    }
}

#[test]
fn invalid_upstream_status_becomes_500() {
    let c = config();
    let state = TileState::Fetching { key: "k".to_string() };
    let event = TileEvent::Fetched { status: 1000, content_type: None, body: vec![1] };
    let (_, action) = tile_proxy_step(&c, state, event);
    match action {
        TileAction::Respond { reply } => assert_eq!(reply.status, 500),
        other => panic!("unexpected action {:?}", other),
    }
}

#[test]
fn unreachable_upstream_is_500() {
    let c = config();
    let state = TileState::Fetching { key: "k".to_string() };
    let (_, action) = tile_proxy_step(&c, state, TileEvent::FetchFailed);
    match action {
        TileAction::Respond { reply } => assert_eq!(reply, text(500, "external tile source error")),
        other => panic!("unexpected action {:?}", other),
    }
}

#[test]
fn event_out_of_turn_changes_nothing() {
    let c = config();
    let (state, action) = tile_proxy_step(&c, TileState::Idle, TileEvent::CacheMiss);
    assert!(matches!(state, TileState::Idle));
    assert!(matches!(action, TileAction::Nothing));
}

#[test]
fn miss_then_fetch_stores_under_looked_up_key() {
    let c = config();
    let (s1, a1) = tile_proxy_step(&c, TileState::Idle, request("osm", Some("2")));
    let looked_up = match a1 {
        TileAction::LookupCache { key } => key,
        other => panic!("unexpected action {:?}", other),
    };
    let (s2, _) = tile_proxy_step(&c, s1, TileEvent::CacheMiss);
    let event = TileEvent::Fetched { status: 204, content_type: None, body: vec![5] };
    let (s3, a3) = tile_proxy_step(&c, s2, event);
    assert!(matches!(s3, TileState::Finished));
    match a3 {
        TileAction::StoreAndRespond { key, bytes, reply } => {
            assert_eq!(key, looked_up);
            assert_eq!(reply.body, Body::Bytes(bytes));
        }
        other => panic!("unexpected action {:?}", other),
    }
}

#[test]
fn key_and_url_formulas() {
    assert_eq!(tile_key("a:b", 0, 10, 255, "1.5"), "a:b:0/10/255/1.5");
    assert_eq!(fill_tile_url("{z}{z}/{scale}", 12, 0, 0, "2"), "1212/2");
}

#[test]
fn tile_keys_tell_coordinates_apart() {
    assert_ne!(tile_key("osm", 1, 12, 3, "1"), tile_key("osm", 11, 2, 3, "1"));
    assert_ne!(tile_key("osm", 1, 2, 34, "1"), tile_key("osm", 1, 23, 4, "1"));
    assert_eq!(tile_key("osm", 1, 2, 3, "1"), tile_key("osm", 1, 2, 3, "1"));
}

#[test]
fn cache_file_names_are_flat() {
    assert_eq!(cache_file_name("osm:3/4/5/1"), "osm_3_4_5_1.bin");
    let name = cache_file_name("../../etc/passwd:x");
    assert!(!name.contains('/'));
    assert!(!name.contains(':'));
    assert!(name.ends_with(".bin"));
}

#[test]
fn cache_limit_in_bytes() {
    assert_eq!(cache_limit_bytes(10), 10 * 1024 * 1024 * 1024);
    assert_eq!(cache_limit_bytes(0), 0);
    assert_eq!(BYTES_PER_GB, 1 << 30);
}

#[test]
fn eviction_decision() {
    assert!(!must_evict(5, 10));
    assert!(!must_evict(10, 10));
    assert!(must_evict(11, 10));
    assert!(must_evict(-1, u64::MAX - 1));
}

#[test]
fn config_defaults() {
    let mut c = config();
    assert_eq!(c.cache_size_gb_or_default(), 10);
    assert!(c.worker_threads() >= 1);
    c.thread_count = Some(3);
    c.cache_size_gb = Some(2);
    assert_eq!(c.worker_threads(), 3);
    assert_eq!(c.cache_size_gb_or_default(), 2);
    assert_eq!(c.tile_source("osm").as_deref(), Some("https://tile.example.org/{z}/{x}/{y}.png?s={scale}"));
    assert!(c.has_tile_source("sat"));
    assert!(!c.has_tile_source("os"));
}

#[test]
fn tile_sources_keep_one_template_per_name() {
    let sources = TileSources::from_entries(vec![
        ("osm".to_string(), "https://a/{z}/{x}/{y}".to_string()),
        ("sat".to_string(), "https://s/{z}/{x}/{y}".to_string()),
        ("osm".to_string(), "https://b/{z}/{x}/{y}".to_string()),
    ]);
    assert_eq!(sources.get("osm").as_deref(), Some("https://b/{z}/{x}/{y}"));
    assert_eq!(sources.get("sat").as_deref(), Some("https://s/{z}/{x}/{y}"));
    assert_eq!(sources.get("none"), None);
    assert_eq!(sources.entries().len(), 2);
    let mut more = TileSources::new();
    assert_eq!(more.get("osm"), None);
    more.insert("osm".to_string(), "x".to_string());
    more.insert("osm".to_string(), "y".to_string());
    assert_eq!(more.entries(), &vec![("osm".to_string(), "y".to_string())]);
}

#[test]
fn cache_hit_counts_once_more() {
    let a = cache_lookup_step(CacheLookup::Row { file: "osm_3_4_5_1.bin".to_string(), hit_count: 4, file_exists: true });
    assert_eq!(a, CacheAction::Serve { file: "osm_3_4_5_1.bin".to_string(), hits: 5 });
}

#[test]
fn cache_row_without_file_is_purged() {
    let a = cache_lookup_step(CacheLookup::Row { file: "gone.bin".to_string(), hit_count: 9, file_exists: false });
    assert_eq!(a, CacheAction::Purge);
    let a = cache_lookup_step(CacheLookup::Row { file: "gone.bin".to_string(), hit_count: i64::MAX, file_exists: false });
    assert_eq!(a, CacheAction::Purge);
    assert_eq!(cache_lookup_step(CacheLookup::NoRow), CacheAction::Miss);
}

#[test]
fn eviction_removes_existing_files_only() {
    assert_eq!(eviction_step(true), EvictionAction::RemoveFileAndRow);
    assert_eq!(eviction_step(false), EvictionAction::RemoveRow);
}
