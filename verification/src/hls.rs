//! Rewriting HLS playlists so every reference routes back through the
//! proxy.
//!
//! A playlist is processed line by line. A blank line is dropped. A tag
//! line (`#…`) is kept, except that every `URI="…"` attribute inside it
//! is replaced by a proxy reference. Any other line names a segment or
//! sub-playlist: it becomes an absolute URL (resolved against the
//! playlist's own URL when relative) wrapped into a proxy reference.
//! A line or attribute that already points at the proxy — it begins
//! with the proxy origin followed by `/proxy/` — is kept as it stands,
//! which makes the rewriter a fixed point of its own output. Every new
//! proxy reference carries the original request's query parameters
//! forward, with `url` replaced by the new target.

use crate::query::{
    params_without_url, push_query_with_url, query_with_url, views, without_url,
};
use crate::text::{
    contains_spec, contains_sub, find_from, find_spec, has_prefix, match_at, push_all,
    push_str_bytes, split_spec, starts_with, str_bytes, sub_vec, trim_bytes, trim_spec,
};
use crate::urlref::{copy_bytes, parse_ok, resolve_reference, resolve_spec, url_parse_ok};
use vstd::prelude::*;

verus! {

/// The path hint for an absolute target: a playlist reference keeps the
/// playlist hint, anything else is fetched as a transport stream.
pub open spec fn ext_of(abs: Seq<u8>) -> Seq<u8> {
    if contains_spec(abs, crate::lit(".m3u8")) {
        crate::lit("stream.m3u8")
    } else {
        crate::lit("stream.ts")
    }
}

/// A rewritten reference: the proxy origin, the path hint, and the
/// query carrying the absolute target under `url`.
pub open spec fn proxy_line(origin: Seq<u8>, abs: Seq<u8>, params: Seq<(Seq<u8>, Seq<u8>)>) -> Seq<
    u8,
> {
    origin + crate::lit("/proxy/") + ext_of(abs) + crate::lit("?") + query_with_url(abs, params)
}

/// The first `URI="…"` attribute at or after `from`: the position of
/// `URI="` and of the closing quote, with at least one byte between.
/// An occurrence with no closing quote or with nothing between the
/// quotes is no attribute; scanning continues after it.
pub open spec fn find_uri(s: Seq<u8>, from: int) -> Option<(int, int)>
    decreases s.len() - from + 1,
{
    match find_spec(s, crate::lit("URI=\""), from) {
        Option::None => None,
        Option::Some(i) => if from <= i && i + 5 <= s.len() {
            match find_spec(s, crate::lit("\""), i + 5) {
                Option::None => None,
                Option::Some(j) => if i + 5 < j < s.len() {
                    Some((i, j))
                } else if i + 5 == j {
                    find_uri(s, i + 1)
                } else {
                    // never reached: the closing quote lies inside `s`
                    None
                },
            }
        } else {
            // never reached: a found position lies at or after `from`
            None
        },
    }
}

/// Positions delivered by `find_uri` frame a well-formed attribute:
/// the pattern stands at `i`, and `j` is the first quote after it.
pub proof fn lemma_find_uri_bounds(s: Seq<u8>, from: int)
    requires
        0 <= from,
        find_uri(s, from) is Some,
    ensures
        ({
            let (i, j) = find_uri(s, from)->0;
            &&& from <= i
            &&& i + 5 < j < s.len()
            &&& match_at(s, crate::lit("URI=\""), i)
            &&& find_spec(s, crate::lit("\""), i + 5) == Some(j)
        }),
    decreases s.len() - from + 1,
{
    lemma_uri_pat_len();
    match find_spec(s, crate::lit("URI=\""), from) {
        Option::None => {},
        Option::Some(i) => {
            crate::text::lemma_find_found(s, crate::lit("URI=\""), from);
            match find_spec(s, crate::lit("\""), i + 5) {
                Option::None => {},
                Option::Some(j) => {
                    crate::text::lemma_find_found(s, crate::lit("\""), i + 5);
                    if i + 5 == j {
                        lemma_find_uri_bounds(s, i + 1);
                    }
                },
            }
        },
    }
}

/// The literal `URI="` holds five bytes and `"` one.
pub proof fn lemma_uri_pat_len()
    ensures
        crate::lit("URI=\"").len() == 5,
        crate::lit("\"").len() == 1,
        crate::lit("URI=\"")[0] == 0x55u8,
{
    reveal_strlit("URI=\"");
    reveal_strlit("\"");
    vstd::utf8::is_ascii_chars_encode_utf8("URI=\""@);
    vstd::utf8::is_ascii_chars_encode_utf8("\""@);
}

/// The rewritten value of one `URI="…"` attribute: the value itself
/// when it already points at the proxy, else a proxy reference to its
/// absolute form.
pub open spec fn uri_value_out(
    value: Seq<u8>,
    origin: Seq<u8>,
    base: Seq<u8>,
    params: Seq<(Seq<u8>, Seq<u8>)>,
) -> Seq<u8> {
    if has_prefix(value, origin + crate::lit("/proxy/")) {
        value
    } else {
        proxy_line(origin, resolve_spec(base, value), params)
    }
}

/// A tag line with every `URI="…"` attribute rewritten to a proxy
/// reference; an already-proxied value, and a line without any
/// attribute, are kept as they stand.
pub open spec fn uri_scan(
    s: Seq<u8>,
    origin: Seq<u8>,
    base: Seq<u8>,
    params: Seq<(Seq<u8>, Seq<u8>)>,
) -> Seq<u8>
    decreases s.len(),
{
    match find_uri(s, 0) {
        Option::None => s,
        Option::Some((i, j)) => if 0 <= i && i + 5 < j < s.len() {
            s.subrange(0, i) + crate::lit("URI=\"") + uri_value_out(
                s.subrange(i + 5, j),
                origin,
                base,
                params,
            ) + crate::lit("\"") + uri_scan(s.subrange(j + 1, s.len() as int), origin, base, params)
        } else {
            // never reached: found positions frame an attribute
            s
        },
    }
}

/// One output line for one non-blank trimmed input line: a tag has
/// its attributes rewritten, a line already pointing at the proxy is
/// kept, any other line becomes a proxy reference.
pub open spec fn emit_line(
    t: Seq<u8>,
    origin: Seq<u8>,
    base: Seq<u8>,
    params: Seq<(Seq<u8>, Seq<u8>)>,
) -> Seq<u8>
    recommends
        t.len() > 0,
{
    if t[0] == 0x23 {
        uri_scan(t, origin, base, params) + crate::lit("\n")
    } else if has_prefix(t, origin + crate::lit("/proxy/")) {
        t + crate::lit("\n")
    } else {
        proxy_line(origin, resolve_spec(base, t), params) + crate::lit("\n")
    }
}

/// The rewritten playlist, line by line.
pub open spec fn rewrite_segments(
    segs: Seq<Seq<u8>>,
    origin: Seq<u8>,
    base: Seq<u8>,
    params: Seq<(Seq<u8>, Seq<u8>)>,
) -> Seq<u8>
    decreases segs.len(),
{
    if segs.len() == 0 {
        seq![]
    } else {
        let t = trim_spec(segs[0]);
        (if t.len() == 0 {
            seq![]
        } else {
            emit_line(t, origin, base, params)
        }) + rewrite_segments(segs.drop_first(), origin, base, params)
    }
}

/// The rewritten body: every line of `body`, trimmed, blank lines
/// dropped, tags kept with their `URI` attributes rewritten, every
/// other line wrapped into a proxy reference.
pub open spec fn rewrite_body_spec(
    body: Seq<u8>,
    origin: Seq<u8>,
    base: Seq<u8>,
    params: Seq<(Seq<u8>, Seq<u8>)>,
) -> Seq<u8> {
    rewrite_segments(split_spec(body, 0x0a), origin, base, params)
}

/// Whether a detected playlist body is rewritten at all: only when the
/// request URL parses as a base for resolution, and the body is text —
/// valid UTF-8 — rather than some binary payload that only looked like
/// a playlist.
pub open spec fn rewrite_applies(body: Seq<u8>, request_url: Seq<u8>) -> bool {
    url_parse_ok(request_url) && vstd::utf8::valid_utf8(body)
}

/// What the proxy sends back for a playlist body: the rewrite when one
/// applies, the body untouched byte for byte otherwise.
pub open spec fn playlist_output(
    body: Seq<u8>,
    request_url: Seq<u8>,
    origin: Seq<u8>,
    params: Seq<(Seq<u8>, Seq<u8>)>,
) -> Seq<u8> {
    if rewrite_applies(body, request_url) {
        rewrite_body_spec(body, origin, request_url, without_url(params))
    } else {
        body
    }
}

/// Appends `origin + "/proxy/" + ext + "?" + url=<abs>&…` to `out`.
pub fn push_proxy_line(
    out: &mut Vec<u8>,
    origin: &Vec<u8>,
    abs: &Vec<u8>,
    params: &Vec<(Vec<u8>, Vec<u8>)>,
)
    ensures
        final(out)@ == old(out)@ + proxy_line(origin@, abs@, views(params@)),
{
    push_all(out, origin);
    push_str_bytes(out, "/proxy/");
    let m3u8_pat = str_bytes(".m3u8");
    if contains_sub(abs, &m3u8_pat) {
        push_str_bytes(out, "stream.m3u8");
    } else {
        push_str_bytes(out, "stream.ts");
    }
    push_str_bytes(out, "?");
    push_query_with_url(out, abs, params);
}

/// The first `URI="…"` attribute at or after `from`.
fn find_uri_exec(s: &Vec<u8>, from: usize) -> (r: Option<(usize, usize)>)
    ensures
        match r {
            Option::Some(p) => find_uri(s@, from as int) == Some((p.0 as int, p.1 as int)),
            Option::None => find_uri(s@, from as int) is None,
        },
    decreases s@.len() - from,
{
    proof {
        lemma_uri_pat_len();
    }
    let n = s.len();
    let pat = str_bytes("URI=\"");
    let quote = str_bytes("\"");
    match find_from(s, &pat, from) {
        Option::None => None,
        Option::Some(i) => {
            proof {
                crate::text::lemma_find_found(s@, pat@, from as int);
                assert(i + 5 <= n);
            }
            match find_from(s, &quote, i + 5) {
                Option::None => None,
                Option::Some(j) => {
                    proof {
                        crate::text::lemma_find_found(s@, quote@, i + 5);
                    }
                    if j > i + 5 {
                        Some((i, j))
                    } else {
                        find_uri_exec(s, i + 1)
                    }
                },
            }
        },
    }
}

/// A tag line with every `URI="…"` attribute rewritten.
pub fn rewrite_tag_line(
    t: &Vec<u8>,
    origin: &Vec<u8>,
    base: &Vec<u8>,
    params: &Vec<(Vec<u8>, Vec<u8>)>,
) -> (r: Vec<u8>)
    ensures
        r@ == uri_scan(t@, origin@, base@, views(params@)),
    decreases t@.len(),
{
    match find_uri_exec(t, 0) {
        Option::None => copy_bytes(t),
        Option::Some((i, j)) => {
            let n = t.len();
            proof {
                lemma_find_uri_bounds(t@, 0);
            }
            let mut out = sub_vec(t, 0, i);
            push_str_bytes(&mut out, "URI=\"");
            let content = sub_vec(t, i + 5, j);
            let mut proxied = copy_bytes(origin);
            push_str_bytes(&mut proxied, "/proxy/");
            if starts_with(&content, &proxied) {
                push_all(&mut out, &content);
            } else {
                let abs = resolve_reference(base, &content);
                push_proxy_line(&mut out, origin, &abs, params);
            }
            push_str_bytes(&mut out, "\"");
            let rest = sub_vec(t, j + 1, n);
            let tail = rewrite_tag_line(&rest, origin, base, params);
            push_all(&mut out, &tail);
            out
        },
    }
}

/// Appends the output line for one non-blank trimmed input line.
fn push_emit_line(
    out: &mut Vec<u8>,
    t: &Vec<u8>,
    origin: &Vec<u8>,
    base: &Vec<u8>,
    params: &Vec<(Vec<u8>, Vec<u8>)>,
)
    requires
        t@.len() > 0,
    ensures
        final(out)@ == old(out)@ + emit_line(t@, origin@, base@, views(params@)),
{
    if t[0] == 0x23 {
        let rw = rewrite_tag_line(t, origin, base, params);
        push_all(out, &rw);
        push_str_bytes(out, "\n");
    } else {
        let mut proxied = copy_bytes(origin);
        push_str_bytes(&mut proxied, "/proxy/");
        if starts_with(t, &proxied) {
            push_all(out, t);
            push_str_bytes(out, "\n");
        } else {
            let abs = resolve_reference(base, t);
            push_proxy_line(out, origin, &abs, params);
            push_str_bytes(out, "\n");
        }
    }
}

/// The rewritten playlist body, against an already-parsed base URL and
/// the forwarded parameters.
pub fn rewrite_body(
    body: &Vec<u8>,
    origin: &Vec<u8>,
    base: &Vec<u8>,
    params: &Vec<(Vec<u8>, Vec<u8>)>,
) -> (r: Vec<u8>)
    ensures
        r@ == rewrite_body_spec(body@, origin@, base@, views(params@)),
    decreases body@.len(),
{
    let nl = str_bytes("\n");
    proof {
        reveal_strlit("\n");
        vstd::utf8::is_ascii_chars_encode_utf8("\n"@);
        assert(nl@ =~= seq![0x0au8]);
    }
    match find_from(body, &nl, 0) {
        Option::None => {
            proof {
                assert(split_spec(body@, 0x0a) == seq![body@]);
                assert(seq![body@].drop_first() =~= Seq::<Seq<u8>>::empty());
                assert(rewrite_segments(
                    Seq::<Seq<u8>>::empty(),
                    origin@,
                    base@,
                    views(params@),
                ) =~= Seq::<u8>::empty());
            }
            let t = trim_bytes(body);
            let mut out: Vec<u8> = Vec::new();
            if t.len() > 0 {
                push_emit_line(&mut out, &t, origin, base, params);
            }
            proof {
                assert(out@ =~= rewrite_segments(seq![body@], origin@, base@, views(params@)));
            }
            out
        },
        Option::Some(i) => {
            proof {
                crate::text::lemma_find_found(body@, seq![0x0au8], 0);
            }
            let n = body.len();
            let head = sub_vec(body, 0, i);
            let rest = sub_vec(body, i + 1, n);
            let t = trim_bytes(&head);
            let mut out: Vec<u8> = Vec::new();
            if t.len() > 0 {
                push_emit_line(&mut out, &t, origin, base, params);
            }
            let tail = rewrite_body(&rest, origin, base, params);
            push_all(&mut out, &tail);
            proof {
                let segs = split_spec(body@, 0x0a);
                assert(segs == seq![head@] + split_spec(rest@, 0x0a));
                assert((seq![head@] + split_spec(rest@, 0x0a)).drop_first() =~= split_spec(
                    rest@,
                    0x0a,
                ));
                assert(out@ =~= rewrite_segments(segs, origin@, base@, views(params@)));
            }
            out
        },
    }
}

/// The body the proxy returns for an HLS response: rewritten when a
/// rewrite applies, untouched otherwise.
pub fn rewrite_playlist(
    body: &Vec<u8>,
    request_url: &Vec<u8>,
    origin: &Vec<u8>,
    params: &Vec<(Vec<u8>, Vec<u8>)>,
) -> (r: Vec<u8>)
    ensures
        r@ == playlist_output(body@, request_url@, origin@, views(params@)),
{
    if parse_ok(request_url) && crate::strbytes::is_valid_utf8(body) {
        let forwarded = params_without_url(params);
        rewrite_body(body, origin, request_url, &forwarded)
    } else {
        copy_bytes(body)
    }
}

} // verus!
