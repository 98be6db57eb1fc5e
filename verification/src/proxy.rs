//! The proxy engine's decisions: accepting a request, retrying the
//! upstream fetch, and assembling the response.
//!
//! The unverified shell runs the HTTP server and the upstream client;
//! it feeds every outcome through these functions and obeys the steps
//! they return.

use crate::encode::dec_bytes;
use crate::headers::{build_upstream_headers, header_plan_with_range};
use crate::hls::{playlist_output, rewrite_playlist};
use crate::query::{url_value, views};
use crate::strbytes::is_valid_utf8;
use crate::text::{contains_spec, contains_sub, push_all, push_str_bytes, str_bytes};
use crate::urlref::parse_ok;
use vstd::prelude::*;

verus! {

/// The upstream fetch is attempted at most this many times.
pub const MAX_ATTEMPTS: u64 = 3;

/// What the proxy does with an incoming request.
pub enum ProxyPlan {
    /// Answer at once, without any upstream fetch.
    Reject { status: u16, body: Vec<u8> },
    /// Fetch `url` upstream, with the reconstituted headers.
    Fetch { url: Vec<u8>, headers: Vec<(Vec<u8>, Vec<u8>)> },
}

/// A request without a non-empty `url` query parameter is rejected with
/// status 400 and the body `Missing URL`; any other request is fetched,
/// with the headers the parameters yield.
pub fn plan_proxy_request(params: &Vec<(Vec<u8>, Vec<u8>)>, range: &Option<Vec<u8>>) -> (r:
    ProxyPlan)
    ensures
        ({
            let uv = url_value(views(params@));
            match r {
                ProxyPlan::Reject { status, body } => (uv is None || uv->0.len() == 0) && status
                    == 400 && body@ == crate::lit("Missing URL"),
                ProxyPlan::Fetch { url, headers } => uv == Some(url@) && url@.len() > 0 && views(
                    headers@,
                ) == header_plan_with_range(
                    views(params@),
                    match range {
                        Some(v) => Some(v@),
                        None => None,
                    },
                ),
            }
        }),
{
    match crate::query::first_url_value(params) {
        Option::Some(url) => {
            if url.len() == 0 {
                ProxyPlan::Reject { status: 400, body: str_bytes("Missing URL") }
            } else {
                let headers = build_upstream_headers(params, range);
                ProxyPlan::Fetch { url, headers }
            }
        },
        Option::None => ProxyPlan::Reject { status: 400, body: str_bytes("Missing URL") },
    }
}

/// One outcome of an upstream fetch attempt, as the shell reports it.
pub enum FetchEvent {
    /// The request could not be sent, with the error's text.
    SendFailed(Vec<u8>),
    /// The response arrived but its body could not be read.
    ReadFailed(Vec<u8>),
    /// A response arrived with this status.
    Delivered { status: u16 },
}

/// What the shell must do after an attempt.
pub enum FetchStep {
    /// Wait, then try again with a freshly-resolved upstream address.
    Retry { delay_ms: u64, force_refresh: bool },
    /// Answer with this status and body; the attempts are spent.
    Fail { status: u16, body: Vec<u8> },
    /// Pass the delivered response on.
    Deliver,
}

/// Whether an outcome is transient: a transport error, a body-read
/// error, or a server-side (5xx) status.
pub open spec fn transient(event: FetchEvent) -> bool {
    match event {
        FetchEvent::SendFailed(_) => true,
        FetchEvent::ReadFailed(_) => true,
        FetchEvent::Delivered { status } => 500 <= status < 600,
    }
}

/// The error text carried by a failed event.
pub open spec fn event_message(event: FetchEvent) -> Seq<u8> {
    match event {
        FetchEvent::SendFailed(m) => m@,
        FetchEvent::ReadFailed(m) => m@,
        FetchEvent::Delivered { .. } => seq![],
    }
}

/// The retry policy. A transient outcome before the last attempt waits
/// `1000 · attempt` milliseconds and re-resolves the upstream host. A
/// transport or read error on the last attempt becomes a 500 response
/// with the body `Error: <msg>`. Anything else — including a 5xx on
/// the last attempt — is delivered with its own status.
pub fn fetch_decision(attempt: u64, event: &FetchEvent) -> (r: FetchStep)
    requires
        1 <= attempt <= MAX_ATTEMPTS,
    ensures
        ({
            match r {
                FetchStep::Retry { delay_ms, force_refresh } => transient(*event) && attempt
                    < MAX_ATTEMPTS && delay_ms == 1000 * attempt && force_refresh,
                FetchStep::Fail { status, body } => attempt == MAX_ATTEMPTS && (event matches
                    FetchEvent::SendFailed(_) || event matches FetchEvent::ReadFailed(_)) && status
                    == 500 && body@ == crate::lit("Error: ") + event_message(*event),
                FetchStep::Deliver => event matches FetchEvent::Delivered { status } && (attempt
                    == MAX_ATTEMPTS || !(500 <= *status < 600)),
            }
        }),
{
    let is_error_event = match event {
        FetchEvent::SendFailed(_) => true,
        FetchEvent::ReadFailed(_) => true,
        FetchEvent::Delivered { .. } => false,
    };
    let is_transient = match event {
        FetchEvent::SendFailed(_) => true,
        FetchEvent::ReadFailed(_) => true,
        FetchEvent::Delivered { status } => 500 <= *status && *status < 600,
    };
    if is_transient && attempt < MAX_ATTEMPTS {
        FetchStep::Retry { delay_ms: 1000 * attempt, force_refresh: true }
    } else if is_error_event {
        let mut body = str_bytes("Error: ");
        match event {
            FetchEvent::SendFailed(m) => push_all(&mut body, m),
            FetchEvent::ReadFailed(m) => push_all(&mut body, m),
            FetchEvent::Delivered { .. } => {},
        }
        FetchStep::Fail { status: 500, body }
    } else {
        FetchStep::Deliver
    }
}

/// The upstream host is re-resolved on every attempt after the first.
pub fn force_refresh_for_attempt(attempt: u64) -> (r: bool)
    ensures
        r == (attempt > 1),
{
    attempt > 1
}

/// Whether a response body counts as an HLS playlist: the request URL
/// names `.m3u8`, or the upstream content type names `mpegurl` or
/// `m3u8`.
pub open spec fn is_hls(url: Seq<u8>, content_type: Option<Seq<u8>>) -> bool {
    contains_spec(url, crate::lit(".m3u8")) || (match content_type {
        Some(ct) => contains_spec(ct, crate::lit("mpegurl")) || contains_spec(
            ct,
            crate::lit("m3u8"),
        ),
        None => false,
    })
}

/// The origin clients must fetch from: the request's own authority when
/// one was sent, else the proxy's LAN address and port.
pub open spec fn origin_spec(authority: Option<Seq<u8>>, lan_ip: Seq<u8>, port: u16) -> Seq<u8> {
    match authority {
        Some(a) => crate::lit("http://") + a,
        None => crate::lit("http://") + lan_ip + crate::lit(":") + dec_bytes(port as nat),
    }
}

pub fn origin_for(authority: &Option<Vec<u8>>, lan_ip: &Vec<u8>, port: u16) -> (r: Vec<u8>)
    ensures
        r@ == origin_spec(
            match authority {
                Some(a) => Some(a@),
                None => None,
            },
            lan_ip@,
            port,
        ),
{
    let mut out = str_bytes("http://");
    match authority {
        Option::Some(a) => push_all(&mut out, a),
        Option::None => {
            push_all(&mut out, lan_ip);
            push_str_bytes(&mut out, ":");
            crate::encode::push_dec_u16(&mut out, port);
        },
    }
    out
}

/// A finished proxy response.
pub struct ProxyResponse {
    pub status: u16,
    pub content_type: Option<Vec<u8>>,
    pub content_length: usize,
    pub content_range: Option<Vec<u8>>,
    pub accept_ranges: Vec<u8>,
    pub body: Vec<u8>,
}

impl ProxyResponse {
    /// The advertised length always equals the body's byte count.
    pub open spec fn wf(self) -> bool {
        self.content_length == self.body@.len()
    }
}

/// Assembles the response for a delivered upstream body. The status
/// mirrors upstream. A detected HLS body goes through the rewriter,
/// and exactly when that rewrite applied — the request URL parsed and
/// the body was text — the content type is forced to
/// `application/x-mpegURL`; otherwise the upstream content type is
/// kept, present or absent. The advertised length is the byte count
/// of the body actually sent, never the upstream length.
/// `Content-Range` is forwarded as-is; `Accept-Ranges` falls back to
/// `bytes`.
#[verifier::rlimit(50)]
pub fn build_response(
    status: u16,
    upstream_content_type: Option<Vec<u8>>,
    content_range: Option<Vec<u8>>,
    accept_ranges: Option<Vec<u8>>,
    body: Vec<u8>,
    request_url: &Vec<u8>,
    params: &Vec<(Vec<u8>, Vec<u8>)>,
    origin: &Vec<u8>,
) -> (r: ProxyResponse)
    ensures
        r.wf(),
        r.status == status,
        ({
            let ct = match upstream_content_type {
                Some(v) => Some(v@),
                None => None,
            };
            let hls = is_hls(request_url@, ct);
            &&& r.body@ == if hls {
                playlist_output(body@, request_url@, origin@, views(params@))
            } else {
                body@
            }
            &&& ({
                let forced = hls && crate::hls::rewrite_applies(body@, request_url@);
                match r.content_type {
                    Some(v) => if forced {
                        v@ == crate::lit("application/x-mpegURL")
                    } else {
                        ct == Some(v@)
                    },
                    None => !forced && ct is None,
                }
            })
        }),
        r.content_length == r.body@.len(),
        (match (r.content_range, content_range) {
            (Some(a), Some(b)) => a@ == b@,
            (None, None) => true,
            _ => false,
        }),
        (match accept_ranges {
            Some(a) => r.accept_ranges@ == a@,
            None => r.accept_ranges@ == crate::lit("bytes"),
        }),
{
    let ghost ctv: Option<Seq<u8>> = if upstream_content_type is Some {
        Some(upstream_content_type->0@)
    } else {
        None
    };
    let m3u8_pat = str_bytes(".m3u8");
    let mpegurl_pat = str_bytes("mpegurl");
    let bare_m3u8_pat = str_bytes("m3u8");
    let url_hls = contains_sub(request_url, &m3u8_pat);
    let ct_hls = match &upstream_content_type {
        Option::Some(ct) => contains_sub(ct, &mpegurl_pat) || contains_sub(ct, &bare_m3u8_pat),
        Option::None => false,
    };
    let hls = url_hls || ct_hls;
    proof {
        assert(url_hls == contains_spec(request_url@, crate::lit(".m3u8")));
        assert(hls == is_hls(request_url@, ctv));
    }
    let forced = hls && parse_ok(request_url) && is_valid_utf8(&body);
    let out_body = if hls {
        rewrite_playlist(&body, request_url, origin, params)
    } else {
        body
    };
    let content_type = if forced {
        Some(str_bytes("application/x-mpegURL"))
    } else {
        upstream_content_type
    };
    let accept = match accept_ranges {
        Option::Some(a) => a,
        Option::None => str_bytes("bytes"),
    };
    let n = out_body.len();
    ProxyResponse {
        status,
        content_type,
        content_length: n,
        content_range,
        accept_ranges: accept,
        body: out_body,
    }
}

} // verus!
