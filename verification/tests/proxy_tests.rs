use castrelay::proxy::{
    build_response, fetch_decision, plan_proxy_request, FetchEvent, FetchStep, ProxyPlan,
};
use castrelay::status::{cors_policy, get_proxy_status, get_server_port, ProxyPort};

fn params(pairs: &[(&str, &str)]) -> Vec<(Vec<u8>, Vec<u8>)> {
    pairs
        .iter()
        .map(|(k, v)| (k.as_bytes().to_vec(), v.as_bytes().to_vec()))
        .collect()
}

#[test]
fn test_missing_url_is_rejected() {
    match plan_proxy_request(&params(&[("other", "x")]), &None) {
        ProxyPlan::Reject { status, body } => {
            assert_eq!(status, 400);
            assert_eq!(body, b"Missing URL".to_vec());
        }
        ProxyPlan::Fetch { .. } => panic!("a request without url must be rejected"),
    }
}

#[test]
fn test_empty_url_is_rejected() {
    match plan_proxy_request(&params(&[("url", "")]), &None) {
        ProxyPlan::Reject { status, body } => {
            assert_eq!(status, 400);
            assert_eq!(body, b"Missing URL".to_vec());
        }
        ProxyPlan::Fetch { .. } => panic!("a request with an empty url must be rejected"),
    }
}

#[test]
fn test_headers_are_lowercased_and_url_is_excluded() {
    let plan = plan_proxy_request(
        &params(&[
            ("url", "https://cdn.example.com/v.mp4"),
            ("User-Agent", "X"),
            ("Referer", "https://example.com"),
        ]),
        &None,
    );
    match plan {
        ProxyPlan::Fetch { url, headers } => {
            assert_eq!(url, b"https://cdn.example.com/v.mp4".to_vec());
            assert_eq!(headers.len(), 2);
            assert_eq!(headers[0].0, b"user-agent".to_vec());
            assert_eq!(headers[0].1, b"X".to_vec());
            assert_eq!(headers[1].0, b"referer".to_vec());
            assert_eq!(headers[1].1, b"https://example.com".to_vec());
            for (k, _) in &headers {
                assert_ne!(k, &b"url".to_vec());
            }
        }
        ProxyPlan::Reject { .. } => panic!("a request with a url must be fetched"),
    }
}

#[test]
fn test_uppercase_url_key_is_not_forwarded() {
    let plan = plan_proxy_request(
        &params(&[("url", "https://cdn.example.com/v.mp4"), ("URL", "sneaky")]),
        &None,
    );
    match plan {
        ProxyPlan::Fetch { headers, .. } => {
            assert!(headers.is_empty());
        }
        ProxyPlan::Reject { .. } => panic!("a request with a url must be fetched"),
    }
}

#[test]
fn test_invalid_header_bytes_are_dropped() {
    let plan = plan_proxy_request(
        &params(&[
            ("url", "https://cdn.example.com/v.mp4"),
            ("Bad Name", "v"),
            ("ok", "bad\nvalue"),
            ("fine", "value"),
        ]),
        &None,
    );
    match plan {
        ProxyPlan::Fetch { headers, .. } => {
            assert_eq!(headers.len(), 1);
            assert_eq!(headers[0].0, b"fine".to_vec());
            assert_eq!(headers[0].1, b"value".to_vec());
        }
        ProxyPlan::Reject { .. } => panic!("a request with a url must be fetched"),
    }
}

#[test]
fn test_range_header_is_forwarded_last() {
    let plan = plan_proxy_request(
        &params(&[("url", "https://cdn.example.com/v.mp4"), ("Range", "bytes=5-9")]),
        &Some(b"bytes=0-100".to_vec()),
    );
    match plan {
        ProxyPlan::Fetch { headers, .. } => {
            assert_eq!(headers.len(), 2);
            assert_eq!(headers[0].0, b"range".to_vec());
            assert_eq!(headers[0].1, b"bytes=5-9".to_vec());
            assert_eq!(headers[1].0, b"range".to_vec());
            assert_eq!(headers[1].1, b"bytes=0-100".to_vec());
        }
        ProxyPlan::Reject { .. } => panic!("a request with a url must be fetched"),
    }
}

#[test]
fn test_header_validity_matches_http_crate() {
    let names = [
        "user-agent",
        "x-custom",
        "bad name",
        "",
        "ok_name",
        "tab\tname",
        "referer",
        "a|b",
    ];
    let values = ["plain", "bad\nvalue", "tab\tok", "", "null\0byte", "space ok"];
    for name in names {
        for value in values {
            let lowered = name.to_lowercase();
            let crate_accepts =
                reqwest::header::HeaderName::from_bytes(lowered.as_bytes()).is_ok()
                    && reqwest::header::HeaderValue::from_str(value).is_ok();
            let plan = plan_proxy_request(
                &params(&[("url", "https://cdn.example.com/v.mp4"), (name, value)]),
                &None,
            );
            let library_accepts = match plan {
                ProxyPlan::Fetch { headers, .. } => !headers.is_empty(),
                ProxyPlan::Reject { .. } => panic!("a request with a url must be fetched"),
            };
            assert_eq!(
                library_accepts, crate_accepts,
                "validity disagreement on ({:?}, {:?})",
                name, value
            );
        }
    }
}

#[test]
fn test_transient_outcomes_retry_with_backoff() {
    match fetch_decision(1, &FetchEvent::SendFailed(b"boom".to_vec())) {
        FetchStep::Retry { delay_ms, force_refresh } => {
            assert_eq!(delay_ms, 1000);
            assert!(force_refresh);
        }
        _ => panic!("a transport error before the last attempt must retry"),
    }
    match fetch_decision(2, &FetchEvent::Delivered { status: 503 }) {
        FetchStep::Retry { delay_ms, force_refresh } => {
            assert_eq!(delay_ms, 2000);
            assert!(force_refresh);
        }
        _ => panic!("a 5xx before the last attempt must retry"),
    }
    match fetch_decision(2, &FetchEvent::ReadFailed(b"eof".to_vec())) {
        FetchStep::Retry { delay_ms, .. } => assert_eq!(delay_ms, 2000),
        _ => panic!("a body-read error before the last attempt must retry"),
    }
}

#[test]
fn test_exhausted_errors_become_500() {
    match fetch_decision(3, &FetchEvent::SendFailed(b"boom".to_vec())) {
        FetchStep::Fail { status, body } => {
            assert_eq!(status, 500);
            assert_eq!(body, b"Error: boom".to_vec());
        }
        _ => panic!("a transport error on the last attempt must fail"),
    }
}

#[test]
fn test_terminal_statuses_are_delivered() {
    assert!(matches!(
        fetch_decision(1, &FetchEvent::Delivered { status: 200 }),
        FetchStep::Deliver
    ));
    assert!(matches!(
        fetch_decision(1, &FetchEvent::Delivered { status: 404 }),
        FetchStep::Deliver
    ));
    // a 5xx on the last attempt mirrors upstream instead of retrying
    assert!(matches!(
        fetch_decision(3, &FetchEvent::Delivered { status: 503 }),
        FetchStep::Deliver
    ));
}

#[test]
fn test_content_length_equals_body_bytes() {
    let r = build_response(
        200,
        Some(b"video/mp4".to_vec()),
        None,
        None,
        b"ok".to_vec(),
        &b"https://cdn.example.com/v.mp4".to_vec(),
        &params(&[("url", "https://cdn.example.com/v.mp4")]),
        &b"http://10.0.0.5:51234".to_vec(),
    );
    assert_eq!(r.status, 200);
    assert_eq!(r.body, b"ok".to_vec());
    assert_eq!(r.content_length, 2);
    assert_eq!(r.content_type, Some(b"video/mp4".to_vec()));
    assert_eq!(r.accept_ranges, b"bytes".to_vec());
    assert!(r.content_range.is_none());
}

#[test]
fn test_upstream_range_headers_are_forwarded() {
    let r = build_response(
        206,
        None,
        Some(b"bytes 0-1/2".to_vec()),
        Some(b"none".to_vec()),
        b"ab".to_vec(),
        &b"https://cdn.example.com/v.mp4".to_vec(),
        &params(&[]),
        &b"http://10.0.0.5:51234".to_vec(),
    );
    assert_eq!(r.status, 206);
    assert_eq!(r.content_range, Some(b"bytes 0-1/2".to_vec()));
    assert_eq!(r.accept_ranges, b"none".to_vec());
    assert_eq!(r.content_length, 2);
}

#[test]
fn test_port_publication_and_status() {
    let mut port = ProxyPort::new();
    assert_eq!(get_server_port(&port), 0);
    assert_eq!(
        get_proxy_status(&port, Some("10.0.0.5".to_string())),
        Err("Proxy server not started".to_string())
    );
    port.publish(51234);
    assert_eq!(get_server_port(&port), 51234);
    assert_eq!(
        get_proxy_status(&port, Some("10.0.0.5".to_string())),
        Ok("10.0.0.5:51234".to_string())
    );
    assert_eq!(get_proxy_status(&port, None), Ok("Unknown:51234".to_string()));
}

#[test]
fn test_cors_policy_lists() {
    let policy = cors_policy();
    assert_eq!(policy.methods, vec!["GET", "POST", "OPTIONS", "HEAD"]);
    assert_eq!(
        policy.allowed_headers,
        vec![
            "Range",
            "Content-Type",
            "Origin",
            "Accept",
            "Authorization",
            "User-Agent",
            "Referer",
            "Accept-Encoding",
            "Accept-Language",
            "Cache-Control",
            "Connection",
            "Host",
            "Pragma",
        ]
    );
    assert_eq!(
        policy.exposed_headers,
        vec!["Content-Range", "Content-Length", "Accept-Ranges", "Content-Type"]
    );
}

#[test]
fn test_status_renders_extreme_ports() {
    let mut cell = ProxyPort::new();
    cell.publish(65535);
    assert_eq!(
        get_proxy_status(&cell, Some("192.168.1.2".to_string())),
        Ok("192.168.1.2:65535".to_string())
    );
    let mut low = ProxyPort::new();
    low.publish(1);
    assert_eq!(
        get_proxy_status(&low, Some("192.168.1.2".to_string())),
        Ok("192.168.1.2:1".to_string())
    );
}
