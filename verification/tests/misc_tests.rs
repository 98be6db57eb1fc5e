use castrelay::discovery::{collect_devices, AdAddress, ServiceAd};
use castrelay::dns::DnsCache;
use castrelay::titles::{get_all_visible_window_titles, parse_window_title_list};

#[test]
fn test_get_all_visible_windows() {
    // This test just verifies the function doesn't panic
    let titles = get_all_visible_window_titles(vec![]);
    // Should return empty vec if no media players are running
    assert!(titles.len() == 0);
}

#[test]
fn test_parse_window_title_list() {
    let parsed = parse_window_title_list(&"VLC - movie.mkv, Another Window \n".to_string());
    assert_eq!(
        parsed.unwrap(),
        vec!["VLC - movie.mkv".to_string(), "Another Window".to_string()]
    );
    assert!(parse_window_title_list(&"".to_string()).is_none());
    assert!(parse_window_title_list(&"   \n".to_string()).is_none());
    assert_eq!(parse_window_title_list(&"One".to_string()).unwrap(), vec!["One".to_string()]);
}

#[test]
fn test_gathering_titles_across_players() {
    let outputs = vec![
        None,
        Some("A, B".to_string()),
        Some("   ".to_string()),
        Some("C".to_string()),
    ];
    assert_eq!(
        get_all_visible_window_titles(outputs),
        vec!["A".to_string(), "B".to_string(), "C".to_string()]
    );
}

#[test]
fn test_dns_cache_ttl_and_refresh() {
    let mut cache = DnsCache::new();
    let host = "cdn.example.com".to_string();
    assert!(cache.cached(&host, 100, false).is_none());
    cache.store(host.clone(), 0x0A000005, 100);
    // fresh within the TTL
    assert_eq!(cache.cached(&host, 100, false), Some(0x0A000005));
    assert_eq!(cache.cached(&host, 400, false), Some(0x0A000005));
    // expired after it
    assert!(cache.cached(&host, 401, false).is_none());
    // a forced refresh never answers from the cache
    assert!(cache.cached(&host, 100, true).is_none());
    // a later store replaces the entry in place
    cache.store(host.clone(), 0x0A000006, 500);
    assert_eq!(cache.cached(&host, 600, false), Some(0x0A000006));
    assert_eq!(cache.entries.len(), 1);
    // other hosts are untouched
    assert!(cache.cached(&"other.example.com".to_string(), 100, false).is_none());
    cache.store("other.example.com".to_string(), 0x0A000007, 600);
    assert_eq!(cache.entries.len(), 2);
    assert_eq!(cache.cached(&host, 600, false), Some(0x0A000006));
}

#[test]
fn test_discovery_dedup_by_ip() {
    let ads = vec![
        ServiceAd {
            friendly_name: Some("Living Room".to_string()),
            fullname: "cast-1._googlecast._tcp.local.".to_string(),
            addresses: vec![AdAddress { is_ipv4: true, text: "192.168.1.42".to_string() }],
        },
        ServiceAd {
            friendly_name: Some("Living Room TV".to_string()),
            fullname: "cast-2._googlecast._tcp.local.".to_string(),
            addresses: vec![AdAddress { is_ipv4: true, text: "192.168.1.42".to_string() }],
        },
    ];
    let devices = collect_devices(&ads);
    assert_eq!(devices.len(), 1);
    assert_eq!(devices[0].name, "Living Room");
    assert_eq!(devices[0].ip, "192.168.1.42");
}

#[test]
fn test_discovery_name_fallback_and_ipv4_pick() {
    let ads = vec![
        ServiceAd {
            friendly_name: None,
            fullname: "cast-3._googlecast._tcp.local.".to_string(),
            addresses: vec![
                AdAddress { is_ipv4: false, text: "fe80::1".to_string() },
                AdAddress { is_ipv4: true, text: "192.168.1.50".to_string() },
            ],
        },
        ServiceAd {
            friendly_name: Some("No Address".to_string()),
            fullname: "cast-4._googlecast._tcp.local.".to_string(),
            addresses: vec![AdAddress { is_ipv4: false, text: "fe80::2".to_string() }],
        },
    ];
    let devices = collect_devices(&ads);
    assert_eq!(devices.len(), 1);
    assert_eq!(devices[0].name, "cast-3._googlecast._tcp.local.");
    assert_eq!(devices[0].ip, "192.168.1.50");
}

#[test]
fn test_utf8_validator_matches_std() {
    let samples: Vec<Vec<u8>> = vec![
        b"plain ascii".to_vec(),
        "äöü 日本語 😀".as_bytes().to_vec(),
        Vec::new(),
        vec![0xff],
        vec![0x80],
        vec![0xc0, 0x80],
        vec![0xc2],
        vec![0xc2, 0xa9],
        vec![0xe2, 0x82],
        vec![0xe2, 0x82, 0xac],
        vec![0xed, 0xa0, 0x80],
        vec![0xed, 0x9f, 0xbf],
        vec![0xf0, 0x90, 0x80, 0x80],
        vec![0xf4, 0x8f, 0xbf, 0xbf],
        vec![0xf4, 0x90, 0x80, 0x80],
        vec![0xf0, 0x80, 0x80, 0x80],
        vec![0xf8, 0x88, 0x80, 0x80],
        vec![0x41, 0xc3, 0xa9, 0x42],
    ];
    for s in samples {
        assert_eq!(
            castrelay::strbytes::is_valid_utf8(&s),
            std::str::from_utf8(&s).is_ok(),
            "validity disagreement on {:?}",
            s
        );
    }
}
