use castrelay::cast::{
    advance, default_app_id, failure_message, find_running_app, load_failure_message,
    load_retry_decision, next_action, prepare_load, receiver_destination, session_start, AppEntry,
    CastAction, CastEvent, CastPhase, LoadRetryStep, SubtitleTrack,
};
use castrelay::session::{control_plan, executed_message, ActiveSession, SessionStore};

fn headers(pairs: &[(&str, &str)]) -> Vec<(String, String)> {
    pairs
        .iter()
        .map(|(k, v)| (k.to_string(), v.to_string()))
        .collect()
}

#[test]
fn test_plain_mp4_load_url() {
    let plan = prepare_load(
        51234,
        &"10.0.0.5".to_string(),
        &"https://cdn.example.com/v.mp4".to_string(),
        &"video/mp4".to_string(),
        &headers(&[("Referer", "https://example.com")]),
        &Vec::new(),
    )
    .unwrap();
    assert_eq!(
        plan.content_id,
        "http://10.0.0.5:51234/proxy/stream.mp4?url=https%3A%2F%2Fcdn.example.com%2Fv.mp4&Referer=https%3A%2F%2Fexample.com"
    );
    assert_eq!(plan.content_type, "video/mp4");
    assert!(plan.tracks.is_empty());
    assert!(plan.active_track_ids.is_empty());
}

#[test]
fn test_hls_load_with_english_subtitles() {
    let subs = vec![SubtitleTrack {
        url: "https://s/e.vtt".to_string(),
        language: "en".to_string(),
        label: "English".to_string(),
    }];
    let plan = prepare_load(
        51234,
        &"10.0.0.5".to_string(),
        &"https://cdn.example.com/master.m3u8".to_string(),
        &"application/x-mpegURL".to_string(),
        &Vec::new(),
        &subs,
    )
    .unwrap();
    assert!(plan.content_id.starts_with("http://10.0.0.5:51234/proxy/stream.m3u8?url="));
    assert_eq!(plan.tracks.len(), 1);
    assert_eq!(plan.tracks[0].track_id, 1);
    assert_eq!(plan.tracks[0].typ, "TEXT");
    assert_eq!(plan.tracks[0].subtype, "SUBTITLES");
    assert_eq!(plan.tracks[0].content_id, "https://s/e.vtt");
    assert_eq!(plan.tracks[0].content_type, "text/vtt");
    assert_eq!(plan.tracks[0].name, "English");
    assert_eq!(plan.active_track_ids, vec![1]);
}

#[test]
fn test_load_fails_while_port_is_zero() {
    let r = prepare_load(
        0,
        &"10.0.0.5".to_string(),
        &"https://cdn.example.com/v.mp4".to_string(),
        &"video/mp4".to_string(),
        &Vec::new(),
        &Vec::new(),
    );
    assert_eq!(r.err().unwrap(), "Stream server not started. Port is 0.");
}

#[test]
fn test_subtitle_activation_rules() {
    let mk = |lang: &str| SubtitleTrack {
        url: "https://s/t.vtt".to_string(),
        language: lang.to_string(),
        label: lang.to_string(),
    };
    let plan = |subs: Vec<SubtitleTrack>| {
        prepare_load(
            1,
            &"10.0.0.5".to_string(),
            &"https://x/v.mp4".to_string(),
            &"video/mp4".to_string(),
            &Vec::new(),
            &subs,
        )
        .unwrap()
    };
    // no English track: the first track is activated
    assert_eq!(plan(vec![mk("de"), mk("fr")]).active_track_ids, vec![1]);
    // English matching is case-insensitive and accepts the long name
    assert_eq!(plan(vec![mk("fr"), mk("EN")]).active_track_ids, vec![2]);
    assert_eq!(plan(vec![mk("English")]).active_track_ids, vec![1]);
    // several English tracks are all activated
    assert_eq!(plan(vec![mk("en"), mk("de"), mk("english")]).active_track_ids, vec![1, 3]);
    // no tracks, no activation
    assert!(plan(vec![]).active_track_ids.is_empty());
}

#[test]
fn test_find_running_app() {
    let apps = vec![
        AppEntry {
            app_id: "ABCD0000".to_string(),
            transport_id: "t0".to_string(),
            session_id: "s0".to_string(),
        },
        AppEntry {
            app_id: "CC1AD845".to_string(),
            transport_id: "t1".to_string(),
            session_id: "s1".to_string(),
        },
    ];
    let found = find_running_app(&apps).unwrap();
    assert_eq!(found.0, "t1");
    assert_eq!(found.1, "s1");
    let others = vec![AppEntry {
        app_id: "ABCD0000".to_string(),
        transport_id: "t0".to_string(),
        session_id: "s0".to_string(),
    }];
    assert!(find_running_app(&others).is_none());
    assert_eq!(default_app_id(), "CC1AD845");
    assert_eq!(receiver_destination(), "receiver-0");
}

#[test]
fn test_load_handshake_adopts_running_app() {
    let mut s = session_start();
    assert!(matches!(next_action(&s.phase), CastAction::ConnectTls));
    s = advance(s, CastEvent::Opened).unwrap();
    assert!(matches!(next_action(&s.phase), CastAction::ConnectReceiver));
    s = advance(s, CastEvent::ReceiverConnected).unwrap();
    assert!(matches!(next_action(&s.phase), CastAction::Ping));
    s = advance(s, CastEvent::Pong).unwrap();
    assert!(matches!(next_action(&s.phase), CastAction::GetStatus));
    let apps = vec![AppEntry {
        app_id: "CC1AD845".to_string(),
        transport_id: "t9".to_string(),
        session_id: "s9".to_string(),
    }];
    s = advance(s, CastEvent::Status { apps }).unwrap();
    assert_eq!(s.phase, CastPhase::AppReady);
    assert_eq!(s.transport_id, "t9");
    assert_eq!(s.session_id, "s9");
    s = advance(s, CastEvent::TransportConnected).unwrap();
    assert!(matches!(next_action(&s.phase), CastAction::LoadMedia { pause_ms: 100 }));
    s = advance(s, CastEvent::MediaLoaded).unwrap();
    assert!(matches!(next_action(&s.phase), CastAction::KeepAlive { hold_ms: 3000 }));
    s = advance(s, CastEvent::KeptAlive).unwrap();
    assert_eq!(s.phase, CastPhase::Done);
}

#[test]
fn test_load_handshake_launches_when_absent() {
    let mut s = session_start();
    s = advance(s, CastEvent::Opened).unwrap();
    s = advance(s, CastEvent::ReceiverConnected).unwrap();
    s = advance(s, CastEvent::Pong).unwrap();
    s = advance(s, CastEvent::Status { apps: Vec::new() }).unwrap();
    assert_eq!(s.phase, CastPhase::Launching);
    assert!(matches!(next_action(&s.phase), CastAction::LaunchApp));
    s = advance(
        s,
        CastEvent::Launched { transport_id: "t2".to_string(), session_id: "s2".to_string() },
    )
    .unwrap();
    assert_eq!(s.phase, CastPhase::AppReady);
    assert_eq!(s.transport_id, "t2");
    assert_eq!(s.session_id, "s2");
    // an event that does not fit the phase is refused
    assert!(advance(s, CastEvent::Opened).is_none());
}

#[test]
fn test_failure_and_retry_messages() {
    assert_eq!(failure_message(&CastPhase::Init, "boom"), "Connect failed: boom");
    assert_eq!(failure_message(&CastPhase::Alive, "x"), "Get status failed: x");
    assert_eq!(
        load_failure_message("Connect failed: boom"),
        "Failed after 3 attempts. Last error: Connect failed: boom"
    );
    assert!(matches!(load_retry_decision(1), LoadRetryStep::Retry { delay_ms: 1000 }));
    assert!(matches!(load_retry_decision(2), LoadRetryStep::Retry { delay_ms: 1000 }));
    assert!(matches!(load_retry_decision(3), LoadRetryStep::GiveUp));
}

#[test]
fn test_session_store_replacement() {
    let mut store = SessionStore::new();
    assert!(store.current.is_none());
    store.record(ActiveSession {
        device_ip: "192.168.1.42".to_string(),
        transport_id: "t1".to_string(),
        session_id: "s1".to_string(),
    });
    {
        let s = store.current.as_ref().unwrap();
        assert_eq!(s.device_ip, "192.168.1.42");
        assert_eq!(s.transport_id, "t1");
        assert_eq!(s.session_id, "s1");
    }
    store.record(ActiveSession {
        device_ip: "192.168.1.77".to_string(),
        transport_id: "t2".to_string(),
        session_id: "s2".to_string(),
    });
    let s = store.current.as_ref().unwrap();
    assert_eq!(s.device_ip, "192.168.1.77");
    assert_eq!(s.transport_id, "t2");
    assert_eq!(s.session_id, "s2");
}

#[test]
fn test_stop_without_active_session() {
    let store = SessionStore::new();
    assert_eq!(
        control_plan(&store, &"stop".to_string()).err().unwrap(),
        "No active cast connection"
    );
}

#[test]
fn test_control_actions() {
    let mut store = SessionStore::new();
    store.record(ActiveSession {
        device_ip: "192.168.1.42".to_string(),
        transport_id: "t1".to_string(),
        session_id: "s1".to_string(),
    });
    let plan = control_plan(&store, &"stop".to_string()).unwrap();
    assert_eq!(plan.device_ip, "192.168.1.42");
    assert_eq!(plan.session_id, "s1");
    assert_eq!(
        control_plan(&store, &"pause".to_string()).err().unwrap(),
        "Control partially implemented"
    );
    assert_eq!(executed_message(&"stop".to_string()), "Executed stop");
}
