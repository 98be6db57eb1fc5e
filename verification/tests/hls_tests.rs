use castrelay::encode::push_encoded;
use castrelay::hls::{rewrite_playlist, rewrite_tag_line};
use castrelay::proxy::build_response;
use castrelay::urlref::{parse_ok, resolve_reference};

fn params(pairs: &[(&str, &str)]) -> Vec<(Vec<u8>, Vec<u8>)> {
    pairs
        .iter()
        .map(|(k, v)| (k.as_bytes().to_vec(), v.as_bytes().to_vec()))
        .collect()
}

#[test]
fn test_manifest_rewrite() {
    let body = b"#EXTM3U\n#EXT-X-MEDIA:TYPE=AUDIO,URI=\"audio/eng.m3u8\"\nsegment1.ts\nhttps://other/segment2.ts\n".to_vec();
    let request_url = b"https://cdn.example.com/master.m3u8".to_vec();
    let origin = b"http://10.0.0.5:51234".to_vec();
    let p = params(&[("url", "https://cdn.example.com/master.m3u8"), ("User-Agent", "X")]);
    let out = rewrite_playlist(&body, &request_url, &origin, &p);
    let expected = "#EXTM3U\n#EXT-X-MEDIA:TYPE=AUDIO,URI=\"http://10.0.0.5:51234/proxy/stream.m3u8?url=https%3A%2F%2Fcdn.example.com%2Faudio%2Feng.m3u8&User-Agent=X\"\nhttp://10.0.0.5:51234/proxy/stream.ts?url=https%3A%2F%2Fcdn.example.com%2Fsegment1.ts&User-Agent=X\nhttp://10.0.0.5:51234/proxy/stream.ts?url=https%3A%2F%2Fother%2Fsegment2.ts&User-Agent=X\n";
    assert_eq!(String::from_utf8(out).unwrap(), expected);
}

#[test]
fn test_rewrite_skipped_when_base_does_not_parse() {
    let body = b"segment1.ts\n".to_vec();
    let request_url = b"not a url".to_vec();
    let origin = b"http://10.0.0.5:51234".to_vec();
    let out = rewrite_playlist(&body, &request_url, &origin, &params(&[]));
    assert_eq!(out, body);
}

#[test]
fn test_blank_lines_dropped_and_tags_kept() {
    let body = b"#EXTM3U\n\n   \n#EXT-X-VERSION:3\n".to_vec();
    let request_url = b"https://cdn.example.com/master.m3u8".to_vec();
    let origin = b"http://10.0.0.5:51234".to_vec();
    let out = rewrite_playlist(&body, &request_url, &origin, &params(&[]));
    assert_eq!(out, b"#EXTM3U\n#EXT-X-VERSION:3\n".to_vec());
}

#[test]
fn test_uri_attribute_without_closing_quote_is_kept() {
    let line = b"#EXT-X-KEY:METHOD=AES-128,URI=\"https://k/e".to_vec();
    let origin = b"http://10.0.0.5:51234".to_vec();
    let base = b"https://cdn.example.com/master.m3u8".to_vec();
    let out = rewrite_tag_line(&line, &origin, &base, &params(&[]));
    assert_eq!(out, line);
}

#[test]
fn test_two_uri_attributes_in_one_line() {
    let line = b"#X:URI=\"a.ts\",OTHER-URI=\"b.m3u8\"".to_vec();
    let origin = b"http://h:1".to_vec();
    let base = b"https://cdn.example.com/master.m3u8".to_vec();
    let out = rewrite_tag_line(&line, &origin, &base, &params(&[]));
    let expected = "#X:URI=\"http://h:1/proxy/stream.ts?url=https%3A%2F%2Fcdn.example.com%2Fa.ts\",OTHER-URI=\"http://h:1/proxy/stream.m3u8?url=https%3A%2F%2Fcdn.example.com%2Fb.m3u8\"";
    assert_eq!(String::from_utf8(out).unwrap(), expected);
}

#[test]
fn test_percent_encoding_matches_urlencoding_crate() {
    let samples = [
        "https://cdn.example.com/v.mp4",
        "plain-text_0.9~ok",
        "space and &=?#",
        "unicode: äöü 日本語",
        "",
        "100% \"quoted\"\n",
    ];
    for s in samples {
        let mut out: Vec<u8> = Vec::new();
        push_encoded(&mut out, &s.as_bytes().to_vec());
        assert_eq!(
            String::from_utf8(out).unwrap(),
            urlencoding::encode(s).into_owned(),
            "encoding disagreement on {:?}",
            s
        );
    }
}

#[test]
fn test_resolve_reference_joins_against_base() {
    let base = b"https://cdn.example.com/a/master.m3u8".to_vec();
    assert_eq!(
        resolve_reference(&base, &b"audio/eng.m3u8".to_vec()),
        b"https://cdn.example.com/a/audio/eng.m3u8".to_vec()
    );
    assert_eq!(
        resolve_reference(&base, &b"/root.ts".to_vec()),
        b"https://cdn.example.com/root.ts".to_vec()
    );
    assert_eq!(
        resolve_reference(&base, &b"https://other/x.ts".to_vec()),
        b"https://other/x.ts".to_vec()
    );
}

#[test]
fn test_parse_ok_grounding() {
    assert!(parse_ok(&b"https://cdn.example.com/v.mp4".to_vec()));
    assert!(!parse_ok(&b"not a url".to_vec()));
    assert!(!parse_ok(&b"relative/path.ts".to_vec()));
}

#[test]
fn test_hls_response_is_rewritten_with_forced_content_type() {
    let body = b"#EXTM3U\nsegment1.ts\n".to_vec();
    let url = b"https://cdn.example.com/master.m3u8".to_vec();
    let p = params(&[("url", "https://cdn.example.com/master.m3u8")]);
    let r = build_response(
        200,
        Some(b"application/vnd.apple.mpegurl".to_vec()),
        None,
        None,
        body,
        &url,
        &p,
        &b"http://10.0.0.5:51234".to_vec(),
    );
    let expected =
        "#EXTM3U\nhttp://10.0.0.5:51234/proxy/stream.ts?url=https%3A%2F%2Fcdn.example.com%2Fsegment1.ts\n";
    assert_eq!(String::from_utf8(r.body.clone()).unwrap(), expected);
    assert_eq!(r.content_type, Some(b"application/x-mpegURL".to_vec()));
    assert_eq!(r.content_length, expected.len());
}

#[test]
fn test_hls_detected_from_url_alone() {
    let body = b"#EXTM3U\n".to_vec();
    let url = b"https://cdn.example.com/master.m3u8?v=1".to_vec();
    let r = build_response(
        200,
        Some(b"text/plain".to_vec()),
        None,
        None,
        body,
        &url,
        &params(&[]),
        &b"http://10.0.0.5:51234".to_vec(),
    );
    assert_eq!(r.content_type, Some(b"application/x-mpegURL".to_vec()));
    assert_eq!(r.body, b"#EXTM3U\n".to_vec());
}

#[test]
fn test_rewrite_empty_body() {
    let out = rewrite_playlist(
        &Vec::new(),
        &b"https://cdn.example.com/master.m3u8".to_vec(),
        &b"http://10.0.0.5:51234".to_vec(),
        &params(&[]),
    );
    assert!(out.is_empty());
}

#[test]
fn test_rewrite_handles_crlf_line_endings() {
    let body = b"#EXTM3U\r\nsegment1.ts\r\n".to_vec();
    let out = rewrite_playlist(
        &body,
        &b"https://cdn.example.com/master.m3u8".to_vec(),
        &b"http://10.0.0.5:51234".to_vec(),
        &params(&[]),
    );
    let expected =
        "#EXTM3U\nhttp://10.0.0.5:51234/proxy/stream.ts?url=https%3A%2F%2Fcdn.example.com%2Fsegment1.ts\n";
    assert_eq!(String::from_utf8(out).unwrap(), expected);
}

#[test]
fn test_unparseable_hls_url_keeps_upstream_type() {
    // detected as HLS by the URL, but the URL is no base: the body and
    // the upstream content type both pass through
    let body = b"segment1.ts\n".to_vec();
    let url = b"bad .m3u8 url".to_vec();
    let r = build_response(
        200,
        Some(b"text/plain".to_vec()),
        None,
        None,
        body.clone(),
        &url,
        &params(&[]),
        &b"http://10.0.0.5:51234".to_vec(),
    );
    assert_eq!(r.body, body);
    assert_eq!(r.content_type, Some(b"text/plain".to_vec()));
    assert_eq!(r.content_length, body.len());
}

#[test]
fn test_binary_hls_body_passes_through() {
    // detected as HLS, parseable URL, but the body is not text: it is
    // kept byte for byte and the upstream type is kept too
    let body = vec![0xffu8, 0x00, 0x0a, 0x23];
    let url = b"https://cdn.example.com/master.m3u8".to_vec();
    let r = build_response(
        200,
        Some(b"application/vnd.apple.mpegurl".to_vec()),
        None,
        None,
        body.clone(),
        &url,
        &params(&[("url", "https://cdn.example.com/master.m3u8")]),
        &b"http://10.0.0.5:51234".to_vec(),
    );
    assert_eq!(r.body, body);
    assert_eq!(r.content_type, Some(b"application/vnd.apple.mpegurl".to_vec()));
    assert_eq!(r.content_length, body.len());
    let direct = rewrite_playlist(
        &body,
        &url,
        &b"http://10.0.0.5:51234".to_vec(),
        &params(&[]),
    );
    assert_eq!(direct, body);
}

#[test]
fn test_rewrite_is_idempotent() {
    let body = b"#EXTM3U\n#EXT-X-MEDIA:TYPE=AUDIO,URI=\"audio/eng.m3u8\"\nsegment1.ts\nhttps://other/segment2.ts\n".to_vec();
    let request_url = b"https://cdn.example.com/master.m3u8".to_vec();
    let origin = b"http://10.0.0.5:51234".to_vec();
    let p = params(&[("url", "https://cdn.example.com/master.m3u8"), ("User-Agent", "X")]);
    let once = rewrite_playlist(&body, &request_url, &origin, &p);
    let twice = rewrite_playlist(&once, &request_url, &origin, &p);
    assert_eq!(twice, once);
}

#[test]
fn test_already_proxied_references_are_kept() {
    let body = b"#EXT-X-MEDIA:URI=\"http://h:1/proxy/stream.m3u8?url=x\"\nhttp://h:1/proxy/stream.ts?url=y\n"
        .to_vec();
    let out = rewrite_playlist(
        &body,
        &b"https://cdn.example.com/master.m3u8".to_vec(),
        &b"http://h:1".to_vec(),
        &params(&[]),
    );
    assert_eq!(out, body);
}
