//! What holds of every rewritten playlist.
//!
//! Two statements. Every non-blank line of the rewriter's output
//! either is a tag (begins with `#`) or points at the proxy: it begins
//! with the proxy origin followed by `/proxy/`, and — since the origin
//! is served under `http://` — with the scheme and the proxy's own
//! authority. And under a well-formed origin the rewriter is a fixed
//! point of its own output, so rewriting a rewritten playlist yields
//! the same bytes again.

use crate::encode::{pe, pe_byte};
use crate::hls::{
    emit_line, find_uri, proxy_line, rewrite_body_spec, rewrite_segments, uri_scan, uri_value_out,
};
use crate::query::{query_pairs, query_with_url};
use crate::text::{
    find_spec, has_prefix, is_space, lemma_find_exact, lemma_find_found, lemma_find_le,
    lemma_split_no_sep, lemma_split_prepend, lemma_trim_end_props, lemma_trim_is_subrange,
    lemma_trim_start_props, match_at, split_spec, trim_end_spec, trim_spec, trim_start_spec,
};
use vstd::prelude::*;

verus! {

/// No byte of `s` is a line break.
pub open spec fn no_nl(s: Seq<u8>) -> bool {
    forall|i: int| 0 <= i < s.len() ==> s[i] != 0x0a
}

/// No byte of `s` is a double quote.
pub open spec fn no_quote(s: Seq<u8>) -> bool {
    forall|i: int| 0 <= i < s.len() ==> s[i] != 0x22
}

/// An origin under which the rewriter's output re-enters cleanly: one
/// line, no double quote, and not beginning like a blank or a tag.
/// The origins the proxy serves under — `http://host:port` — satisfy
/// all of it.
pub open spec fn origin_wf(origin: Seq<u8>) -> bool {
    &&& no_nl(origin)
    &&& no_quote(origin)
    &&& origin.len() > 0 ==> !is_space(origin[0]) && origin[0] != 0x23
}

proof fn lemma_lit_no_nl()
    ensures
        no_nl(crate::lit("/proxy/")),
        no_nl(crate::lit("stream.m3u8")),
        no_nl(crate::lit("stream.ts")),
        no_nl(crate::lit("?")),
        no_nl(crate::lit("url=")),
        no_nl(crate::lit("&")),
        no_nl(crate::lit("=")),
        no_nl(crate::lit("URI=\"")),
        no_nl(crate::lit("\"")),
{
    reveal_strlit("/proxy/");
    reveal_strlit("stream.m3u8");
    reveal_strlit("stream.ts");
    reveal_strlit("?");
    reveal_strlit("url=");
    reveal_strlit("&");
    reveal_strlit("=");
    reveal_strlit("URI=\"");
    reveal_strlit("\"");
    vstd::utf8::is_ascii_chars_encode_utf8("/proxy/"@);
    vstd::utf8::is_ascii_chars_encode_utf8("stream.m3u8"@);
    vstd::utf8::is_ascii_chars_encode_utf8("stream.ts"@);
    vstd::utf8::is_ascii_chars_encode_utf8("?"@);
    vstd::utf8::is_ascii_chars_encode_utf8("url="@);
    vstd::utf8::is_ascii_chars_encode_utf8("&"@);
    vstd::utf8::is_ascii_chars_encode_utf8("="@);
    vstd::utf8::is_ascii_chars_encode_utf8("URI=\""@);
    vstd::utf8::is_ascii_chars_encode_utf8("\""@);
}

/// Bytes that never disturb the output's structure: not whitespace,
/// not a double quote.
pub open spec fn clean_byte(b: u8) -> bool {
    !is_space(b) && b != 0x22
}

pub open spec fn clean(s: Seq<u8>) -> bool {
    forall|i: int| 0 <= i < s.len() ==> clean_byte(#[trigger] s[i])
}

proof fn lemma_lit_clean()
    ensures
        clean(crate::lit("/proxy/")),
        clean(crate::lit("stream.m3u8")),
        clean(crate::lit("stream.ts")),
        clean(crate::lit("?")),
        clean(crate::lit("url=")),
        clean(crate::lit("&")),
        clean(crate::lit("=")),
{
    reveal_strlit("/proxy/");
    reveal_strlit("stream.m3u8");
    reveal_strlit("stream.ts");
    reveal_strlit("?");
    reveal_strlit("url=");
    reveal_strlit("&");
    reveal_strlit("=");
    vstd::utf8::is_ascii_chars_encode_utf8("/proxy/"@);
    vstd::utf8::is_ascii_chars_encode_utf8("stream.m3u8"@);
    vstd::utf8::is_ascii_chars_encode_utf8("stream.ts"@);
    vstd::utf8::is_ascii_chars_encode_utf8("?"@);
    vstd::utf8::is_ascii_chars_encode_utf8("url="@);
    vstd::utf8::is_ascii_chars_encode_utf8("&"@);
    vstd::utf8::is_ascii_chars_encode_utf8("="@);
}

proof fn lemma_pe_clean(s: Seq<u8>)
    ensures
        clean(pe(s)),
    decreases s.len(),
{
    if s.len() > 0 {
        lemma_pe_clean(s.drop_first());
        let head = pe_byte(s[0]);
        assert(forall|i: int| 0 <= i < head.len() ==> clean_byte(#[trigger] head[i]));
        assert forall|i: int| 0 <= i < pe(s).len() implies clean_byte(#[trigger] pe(s)[i]) by {
            if i < head.len() {
                assert(pe(s)[i] == head[i]);
            } else {
                assert(pe(s)[i] == pe(s.drop_first())[i - head.len()]);
            }
        }
    }
}

proof fn lemma_query_pairs_clean(params: Seq<(Seq<u8>, Seq<u8>)>)
    ensures
        clean(query_pairs(params)),
    decreases params.len(),
{
    lemma_lit_clean();
    if params.len() > 0 {
        lemma_query_pairs_clean(params.drop_first());
        lemma_pe_clean(params[0].0);
        lemma_pe_clean(params[0].1);
    }
}

proof fn lemma_query_clean(target: Seq<u8>, params: Seq<(Seq<u8>, Seq<u8>)>)
    ensures
        clean(query_with_url(target, params)),
        query_with_url(target, params).len() > 0,
{
    lemma_lit_clean();
    reveal_strlit("url=");
    vstd::utf8::is_ascii_chars_encode_utf8("url="@);
    lemma_pe_clean(target);
    lemma_query_pairs_clean(params);
    let a = crate::lit("url=");
    let b = pe(target);
    let c = query_pairs(params);
    let q = query_with_url(target, params);
    assert forall|i: int| 0 <= i < q.len() implies clean_byte(#[trigger] q[i]) by {
        if i < a.len() {
            assert(q[i] == a[i]);
        } else if i < a.len() + b.len() {
            assert(q[i] == b[i - a.len()]);
        } else {
            assert(q[i] == c[i - a.len() - b.len()]);
        }
    }
}

proof fn lemma_pe_no_nl(s: Seq<u8>)
    ensures
        no_nl(pe(s)),
{
    lemma_pe_clean(s);
    assert forall|i: int| 0 <= i < pe(s).len() implies pe(s)[i] != 0x0a by {
        assert(clean_byte(pe(s)[i]));
    }
}

proof fn lemma_query_pairs_no_nl(params: Seq<(Seq<u8>, Seq<u8>)>)
    ensures
        no_nl(query_pairs(params)),
{
    lemma_query_pairs_clean(params);
    assert forall|i: int| 0 <= i < query_pairs(params).len() implies query_pairs(params)[i]
        != 0x0a by {
        assert(clean_byte(query_pairs(params)[i]));
    }
}

proof fn lemma_proxy_line_no_nl(origin: Seq<u8>, abs: Seq<u8>, params: Seq<(Seq<u8>, Seq<u8>)>)
    requires
        no_nl(origin),
    ensures
        no_nl(proxy_line(origin, abs, params)),
{
    lemma_lit_no_nl();
    lemma_pe_no_nl(abs);
    lemma_query_pairs_no_nl(params);
    lemma_query_clean(abs, params);
    assert forall|i: int| 0 <= i < proxy_line(origin, abs, params).len() implies proxy_line(
        origin,
        abs,
        params,
    )[i] != 0x0a by {
        let line = proxy_line(origin, abs, params);
        let p1 = origin + crate::lit("/proxy/");
        let p2 = p1 + crate::hls::ext_of(abs);
        let p3 = p2 + crate::lit("?");
        if i < origin.len() {
            assert(line[i] == origin[i]);
        } else if i < p1.len() {
            assert(line[i] == crate::lit("/proxy/")[i - origin.len()]);
        } else if i < p2.len() {
            assert(line[i] == crate::hls::ext_of(abs)[i - p1.len()]);
        } else if i < p3.len() {
            assert(line[i] == crate::lit("?")[i - p2.len()]);
        } else {
            assert(line[i] == query_with_url(abs, params)[i - p3.len()]);
            assert(clean_byte(query_with_url(abs, params)[i - p3.len()]));
        }
    }
}

/// The structural facts the fixed-point proof needs of a freshly built
/// proxy reference: quote-free, non-blank at either end, starting with
/// the origin (or the path when the origin is empty), and carrying the
/// `origin + "/proxy/"` prefix.
proof fn lemma_proxy_line_props(origin: Seq<u8>, abs: Seq<u8>, params: Seq<(Seq<u8>, Seq<u8>)>)
    requires
        no_quote(origin),
    ensures
        ({
            let line = proxy_line(origin, abs, params);
            &&& line.len() > 0
            &&& no_quote(line)
            &&& !is_space(line.last())
            &&& line[0] == if origin.len() > 0 {
                origin[0]
            } else {
                0x2fu8
            }
            &&& has_prefix(line, origin + crate::lit("/proxy/"))
        }),
{
    lemma_lit_clean();
    reveal_strlit("/proxy/");
    vstd::utf8::is_ascii_chars_encode_utf8("/proxy/"@);
    lemma_query_clean(abs, params);
    let line = proxy_line(origin, abs, params);
    let p1 = origin + crate::lit("/proxy/");
    let p2 = p1 + crate::hls::ext_of(abs);
    let p3 = p2 + crate::lit("?");
    let q = query_with_url(abs, params);
    assert(line.last() == q.last());
    assert(clean_byte(q.last()));
    assert forall|i: int| 0 <= i < line.len() implies line[i] != 0x22 by {
        if i < origin.len() {
            assert(line[i] == origin[i]);
        } else if i < p1.len() {
            assert(line[i] == crate::lit("/proxy/")[i - origin.len()]);
            assert(clean_byte(crate::lit("/proxy/")[i - origin.len()]));
        } else if i < p2.len() {
            assert(line[i] == crate::hls::ext_of(abs)[i - p1.len()]);
            assert(clean_byte(crate::hls::ext_of(abs)[i - p1.len()]));
        } else if i < p3.len() {
            assert(line[i] == crate::lit("?")[i - p2.len()]);
            assert(clean_byte(crate::lit("?")[i - p2.len()]));
        } else {
            assert(line[i] == q[i - p3.len()]);
            assert(clean_byte(q[i - p3.len()]));
        }
    }
    if origin.len() > 0 {
        assert(line[0] == origin[0]);
    } else {
        assert(line[0] == crate::lit("/proxy/")[0]);
    }
    assert(line.subrange(0, p1.len() as int) =~= p1);
}

proof fn lemma_uri_scan_no_nl(
    s: Seq<u8>,
    origin: Seq<u8>,
    base: Seq<u8>,
    params: Seq<(Seq<u8>, Seq<u8>)>,
)
    requires
        no_nl(s),
        no_nl(origin),
    ensures
        no_nl(uri_scan(s, origin, base, params)),
    decreases s.len(),
{
    lemma_lit_no_nl();
    match find_uri(s, 0) {
        Option::None => {},
        Option::Some((i, j)) => {
            crate::hls::lemma_find_uri_bounds(s, 0);
            let value = s.subrange(i + 5, j);
            assert(no_nl(value));
            lemma_proxy_line_no_nl(origin, crate::urlref::resolve_spec(base, value), params);
            assert(no_nl(uri_value_out(value, origin, base, params)));
            lemma_uri_scan_no_nl(s.subrange(j + 1, s.len() as int), origin, base, params);
        },
    }
}

/// A tag line stays a tag line through the attribute rewrite.
proof fn lemma_uri_scan_keeps_tag(
    s: Seq<u8>,
    origin: Seq<u8>,
    base: Seq<u8>,
    params: Seq<(Seq<u8>, Seq<u8>)>,
)
    requires
        s.len() > 0,
        s[0] == 0x23,
    ensures
        uri_scan(s, origin, base, params).len() > 0,
        uri_scan(s, origin, base, params)[0] == 0x23,
{
    match find_uri(s, 0) {
        Option::None => {},
        Option::Some((i, j)) => {
            crate::hls::lemma_find_uri_bounds(s, 0);
            crate::hls::lemma_uri_pat_len();
            if i == 0 {
                assert(s.subrange(0, 5) == crate::lit("URI=\""));
                assert(s[0] == crate::lit("URI=\"")[0]);
                assert(false);
            }
            assert(uri_scan(s, origin, base, params)[0] == s.subrange(0, i)[0]);
        },
    }
}

/// What the attribute rewrite leaves at the end of a line: the line's
/// own last byte, or a closing quote.
proof fn lemma_uri_scan_last(
    s: Seq<u8>,
    origin: Seq<u8>,
    base: Seq<u8>,
    params: Seq<(Seq<u8>, Seq<u8>)>,
)
    requires
        s.len() > 0,
    ensures
        uri_scan(s, origin, base, params).len() > 0,
        uri_scan(s, origin, base, params).last() == s.last() || uri_scan(
            s,
            origin,
            base,
            params,
        ).last() == 0x22,
    decreases s.len(),
{
    match find_uri(s, 0) {
        Option::None => {},
        Option::Some((i, j)) => {
            crate::hls::lemma_find_uri_bounds(s, 0);
            crate::hls::lemma_uri_pat_len();
            let rest = s.subrange(j + 1, s.len() as int);
            let out = uri_scan(s, origin, base, params);
            if rest.len() == 0 {
                assert(uri_scan(rest, origin, base, params) =~= Seq::<u8>::empty());
                assert(out.last() == crate::lit("\"")[0]);
                reveal_strlit("\"");
                vstd::utf8::is_ascii_chars_encode_utf8("\""@);
            } else {
                lemma_uri_scan_last(rest, origin, base, params);
                assert(out.last() == uri_scan(rest, origin, base, params).last());
                assert(rest.last() == s.last());
            }
        },
    }
}

/// Every non-blank line the rewriter emits is a tag or a proxy
/// reference rooted at `origin + "/proxy/"`.
pub open spec fn line_shape_ok(line: Seq<u8>, origin: Seq<u8>) -> bool {
    line.len() > 0 ==> (line[0] == 0x23 || has_prefix(line, origin + crate::lit("/proxy/")))
}

proof fn lemma_emit_line_shape(
    t: Seq<u8>,
    origin: Seq<u8>,
    base: Seq<u8>,
    params: Seq<(Seq<u8>, Seq<u8>)>,
)
    requires
        t.len() > 0,
        no_nl(t),
        no_nl(origin),
    ensures
        ({
            let body = emit_line(t, origin, base, params);
            &&& body.len() > 0
            &&& body.last() == 0x0a
            &&& no_nl(body.drop_last())
            &&& line_shape_ok(body.drop_last(), origin)
        }),
{
    lemma_lit_no_nl();
    reveal_strlit("\n");
    vstd::utf8::is_ascii_chars_encode_utf8("\n"@);
    let nl = crate::lit("\n");
    assert(nl.len() == 1 && nl[0] == 0x0a);
    if t[0] == 0x23 {
        let w = uri_scan(t, origin, base, params);
        lemma_uri_scan_no_nl(t, origin, base, params);
        lemma_uri_scan_keeps_tag(t, origin, base, params);
        assert((w + nl).drop_last() =~= w);
    } else if has_prefix(t, origin + crate::lit("/proxy/")) {
        assert((t + nl).drop_last() =~= t);
    } else {
        let w = proxy_line(origin, crate::urlref::resolve_spec(base, t), params);
        lemma_proxy_line_no_nl(origin, crate::urlref::resolve_spec(base, t), params);
        assert((w + nl).drop_last() =~= w);
        let pref = origin + crate::lit("/proxy/");
        assert(w.subrange(0, pref.len() as int) =~= pref);
    }
}

/// Every non-blank line of the rewritten playlist is a tag line or an
/// absolute proxy reference: it begins with `#`, or with the proxy
/// origin followed by `/proxy/`.
pub proof fn lemma_rewrite_shape(
    body: Seq<u8>,
    origin: Seq<u8>,
    base: Seq<u8>,
    params: Seq<(Seq<u8>, Seq<u8>)>,
)
    requires
        no_nl(origin),
    ensures
        ({
            let out_lines = split_spec(rewrite_body_spec(body, origin, base, params), 0x0a);
            forall|k: int| 0 <= k < out_lines.len() ==> line_shape_ok(#[trigger] out_lines[k], origin)
        }),
{
    lemma_split_no_sep(body, 0x0a);
    let segs = split_spec(body, 0x0a);
    assert forall|k: int, j: int|
        0 <= k < segs.len() && 0 <= j < segs[k].len() implies segs[k][j] != 0x0a by {}
    lemma_segments_shape(segs, origin, base, params);
}

proof fn lemma_segments_shape(
    segs: Seq<Seq<u8>>,
    origin: Seq<u8>,
    base: Seq<u8>,
    params: Seq<(Seq<u8>, Seq<u8>)>,
)
    requires
        no_nl(origin),
        forall|k: int| 0 <= k < segs.len() ==> no_nl(#[trigger] segs[k]),
    ensures
        ({
            let out_lines = split_spec(rewrite_segments(segs, origin, base, params), 0x0a);
            forall|k: int| 0 <= k < out_lines.len() ==> line_shape_ok(#[trigger] out_lines[k], origin)
        }),
    decreases segs.len(),
{
    let out = rewrite_segments(segs, origin, base, params);
    if segs.len() == 0 {
        assert(split_spec(out, 0x0a) =~= seq![out]);
    } else {
        lemma_segments_shape(segs.drop_first(), origin, base, params);
        let rest_out = rewrite_segments(segs.drop_first(), origin, base, params);
        let t = trim_spec(segs[0]);
        proof_trim_no_nl(segs[0]);
        if t.len() == 0 {
            assert(out =~= rest_out);
        } else {
            lemma_emit_line_shape(t, origin, base, params);
            let piece = emit_line(t, origin, base, params);
            let line = piece.drop_last();
            assert(out =~= line + seq![0x0au8] + rest_out);
            lemma_split_prepend(line, 0x0a, rest_out);
            let out_lines = split_spec(out, 0x0a);
            assert(out_lines == seq![line] + split_spec(rest_out, 0x0a));
            assert forall|k: int| 0 <= k < out_lines.len() implies line_shape_ok(
                #[trigger] out_lines[k],
                origin,
            ) by {
                if k == 0 {
                } else {
                    assert(out_lines[k] == split_spec(rest_out, 0x0a)[k - 1]);
                }
            }
        }
    }
}

proof fn proof_trim_no_nl(s: Seq<u8>)
    requires
        no_nl(s),
    ensures
        no_nl(trim_spec(s)),
{
    lemma_trim_is_subrange(s);
    let (lo, hi) = choose|lo: int, hi: int|
        0 <= lo <= hi <= s.len() && trim_spec(s) == #[trigger] s.subrange(lo, hi);
    assert forall|i: int| 0 <= i < trim_spec(s).len() implies trim_spec(s)[i] != 0x0a by {
        assert(trim_spec(s)[i] == s[lo + i]);
    }
}

/// Against the origin the proxy serves under, every non-blank line of
/// the rewritten playlist is a tag, or an absolute URL whose scheme is
/// `http` and whose host and port are the proxy's own authority.
pub proof fn lemma_rewrite_lines_point_at_proxy(
    body: Seq<u8>,
    authority: Seq<u8>,
    base: Seq<u8>,
    params: Seq<(Seq<u8>, Seq<u8>)>,
)
    requires
        no_nl(authority),
    ensures
        ({
            let origin = crate::lit("http://") + authority;
            let out_lines = split_spec(rewrite_body_spec(body, origin, base, params), 0x0a);
            forall|k: int|
                0 <= k < out_lines.len() ==> ((#[trigger] out_lines[k]).len() > 0 ==> (
                out_lines[k][0] == 0x23 || has_prefix(
                    out_lines[k],
                    crate::lit("http://") + authority + crate::lit("/proxy/"),
                )))
        }),
{
    let origin = crate::lit("http://") + authority;
    assert(no_nl(origin)) by {
        reveal_strlit("http://");
        vstd::utf8::is_ascii_chars_encode_utf8("http://"@);
        assert forall|i: int| 0 <= i < origin.len() implies origin[i] != 0x0a by {
            if i < crate::lit("http://").len() {
                assert(origin[i] == crate::lit("http://")[i]);
            } else {
                assert(origin[i] == authority[i - crate::lit("http://").len()]);
            }
        }
    }
    lemma_rewrite_shape(body, origin, base, params);
    assert(origin + crate::lit("/proxy/") =~= crate::lit("http://") + authority + crate::lit(
        "/proxy/",
    ));
}

/// A string that neither starts nor ends in whitespace trims to
/// itself.
proof fn lemma_trim_fixed(s: Seq<u8>)
    requires
        s.len() > 0,
        !is_space(s[0]),
        !is_space(s.last()),
    ensures
        trim_spec(s) == s,
{
    assert(trim_start_spec(s) == s);
    assert(trim_end_spec(s) == s);
}

/// Wherever `find_uri` reports its first attribute, every earlier
/// `URI="` occurrence closes immediately and carries no value.
proof fn lemma_find_uri_skips(s: Seq<u8>, from: int)
    requires
        0 <= from,
        find_uri(s, from) is Some,
    ensures
        ({
            let (i, j) = find_uri(s, from)->0;
            forall|k: int|
                from <= k < i && #[trigger] match_at(s, crate::lit("URI=\""), k) ==> find_spec(
                    s,
                    crate::lit("\""),
                    k + 5,
                ) == Some(k + 5)
        }),
    decreases s.len() - from + 1,
{
    match find_spec(s, crate::lit("URI=\""), from) {
        Option::None => {},
        Option::Some(o) => {
            lemma_find_found(s, crate::lit("URI=\""), from);
            match find_spec(s, crate::lit("\""), o + 5) {
                Option::None => {},
                Option::Some(j0) => {
                    if o + 5 == j0 {
                        lemma_find_uri_skips(s, o + 1);
                    }
                },
            }
        },
    }
}

/// `find_uri` returns the known attribute when every earlier
/// occurrence closes immediately.
proof fn lemma_find_uri_exact(s: Seq<u8>, from: int, i: int, j: int)
    requires
        0 <= from <= i,
        match_at(s, crate::lit("URI=\""), i),
        find_spec(s, crate::lit("\""), i + 5) == Some(j),
        i + 5 < j < s.len(),
        forall|k: int|
            from <= k < i && #[trigger] match_at(s, crate::lit("URI=\""), k) ==> find_spec(
                s,
                crate::lit("\""),
                k + 5,
            ) == Some(k + 5),
    ensures
        find_uri(s, from) == Some((i, j)),
    decreases i - from,
{
    crate::hls::lemma_uri_pat_len();
    lemma_find_le(s, crate::lit("URI=\""), from, i);
    let o = find_spec(s, crate::lit("URI=\""), from)->0;
    lemma_find_found(s, crate::lit("URI=\""), from);
    if o == i {
    } else {
        assert(match_at(s, crate::lit("URI=\""), o));
        assert(find_spec(s, crate::lit("\""), o + 5) == Some(o + 5));
        lemma_find_uri_exact(s, o + 1, i, j);
    }
}

/// Two `URI="` occurrences never overlap: the pattern's tail holds no
/// `U`, so a second start needs five bytes of room.
proof fn lemma_uri_occurrences_apart(s: Seq<u8>, k: int, i: int)
    requires
        k < i,
        match_at(s, crate::lit("URI=\""), k),
        match_at(s, crate::lit("URI=\""), i),
    ensures
        k + 5 <= i,
{
    crate::hls::lemma_uri_pat_len();
    reveal_strlit("URI=\"");
    vstd::utf8::is_ascii_chars_encode_utf8("URI=\""@);
    if i < k + 5 {
        assert(s[i] == s.subrange(i, i + 5)[0]);
        assert(s[i] == crate::lit("URI=\"")[0]);
        assert(s[i] == s.subrange(k, k + 5)[i - k]);
        assert(s[i] == crate::lit("URI=\"")[i - k]);
        assert(false);
    }
}

/// The attribute rewrite is a fixed point of its own output.
#[verifier::rlimit(100)]
proof fn lemma_uri_scan_fixpoint(
    s: Seq<u8>,
    origin: Seq<u8>,
    base: Seq<u8>,
    params: Seq<(Seq<u8>, Seq<u8>)>,
)
    requires
        no_quote(origin),
    ensures
        uri_scan(uri_scan(s, origin, base, params), origin, base, params) == uri_scan(
            s,
            origin,
            base,
            params,
        ),
    decreases s.len(),
{
    crate::hls::lemma_uri_pat_len();
    reveal_strlit("URI=\"");
    reveal_strlit("\"");
    vstd::utf8::is_ascii_chars_encode_utf8("URI=\""@);
    vstd::utf8::is_ascii_chars_encode_utf8("\""@);
    let quote_lit = crate::lit("\"");
    match find_uri(s, 0) {
        Option::None => {},
        Option::Some((i, j)) => {
            crate::hls::lemma_find_uri_bounds(s, 0);
            lemma_find_uri_skips(s, 0);
            let content = s.subrange(i + 5, j);
            let value = uri_value_out(content, origin, base, params);
            let rest = s.subrange(j + 1, s.len() as int);
            let tail = uri_scan(rest, origin, base, params);
            let out = uri_scan(s, origin, base, params);
            assert(out == s.subrange(0, i) + crate::lit("URI=\"") + value + quote_lit + tail);

            // the emitted value is non-empty, quote-free, and proxied
            assert(find_spec(s, quote_lit, i + 5) == Some(j));
            lemma_find_found(s, quote_lit, i + 5);
            assert forall|m: int| 0 <= m < content.len() implies content[m] != 0x22 by {
                assert(!match_at(s, quote_lit, i + 5 + m));
                assert(s.subrange(i + 5 + m, i + 5 + m + 1)[0] == s[i + 5 + m]);
                if s[i + 5 + m] == 0x22 {
                    assert(s.subrange(i + 5 + m, i + 5 + m + 1) =~= quote_lit);
                }
                assert(content[m] == s[i + 5 + m]);
            }
            if !has_prefix(content, origin + crate::lit("/proxy/")) {
                lemma_proxy_line_props(
                    origin,
                    crate::urlref::resolve_spec(base, content),
                    params,
                );
            }
            assert(value.len() > 0);
            assert(no_quote(value));
            assert(has_prefix(value, origin + crate::lit("/proxy/")));
            assert(uri_value_out(value, origin, base, params) == value);

            // where the emitted attribute sits inside the output
            let jp = i + 5 + value.len() as int;
            assert(out.subrange(i, i + 5) =~= crate::lit("URI=\""));
            assert(match_at(out, crate::lit("URI=\""), i));
            assert(out[jp] == quote_lit[0]);
            assert(out.subrange(jp, jp + 1) =~= quote_lit);
            assert(match_at(out, quote_lit, jp));
            assert forall|m: int| i + 5 <= m < jp implies !match_at(out, quote_lit, m) by {
                assert(out[m] == value[m - i - 5]);
                if match_at(out, quote_lit, m) {
                    assert(out.subrange(m, m + 1)[0] == quote_lit[0]);
                }
            }
            lemma_find_exact(out, quote_lit, i + 5, jp);

            // the output agrees with the input on everything before the value
            assert forall|m: int| 0 <= m < i + 5 implies out[m] == s[m] by {
                if m < i {
                    assert(out[m] == s.subrange(0, i)[m]);
                } else {
                    assert(out[m] == crate::lit("URI=\"")[m - i]);
                    assert(s.subrange(i, i + 5)[m - i] == crate::lit("URI=\"")[m - i]);
                }
            }

            // earlier occurrences still close immediately
            assert forall|k: int|
                0 <= k < i && #[trigger] match_at(out, crate::lit("URI=\""), k) implies find_spec(
                out,
                quote_lit,
                k + 5,
            ) == Some(k + 5) by {
                assert(out.subrange(k, k + 5) =~= s.subrange(k, k + 5));
                assert(match_at(s, crate::lit("URI=\""), k));
                assert(find_spec(s, quote_lit, k + 5) == Some(k + 5));
                lemma_find_found(s, quote_lit, k + 5);
                assert(match_at(s, quote_lit, k + 5));
                assert(s[k + 5] == s.subrange(k + 5, k + 6)[0]);
                lemma_uri_occurrences_apart(s, k, i);
                assert(s[k + 5] != crate::lit("URI=\"")[0]);
                assert(k + 5 < i + 5);
                assert(out[k + 5] == s[k + 5]);
                assert(out.subrange(k + 5, k + 6) =~= quote_lit);
                assert(match_at(out, quote_lit, k + 5));
                lemma_find_exact(out, quote_lit, k + 5, k + 5);
            }
            lemma_find_uri_exact(out, 0, i, jp);

            // the rescanned output reproduces itself
            assert(find_uri(out, 0) == Some((i, jp)));
            assert(out.subrange(0, i) =~= s.subrange(0, i));
            assert(out.subrange(i + 5, jp) =~= value);
            assert(out.subrange(jp + 1, out.len() as int) =~= tail);
            lemma_uri_scan_fixpoint(rest, origin, base, params);
            assert(uri_scan(out, origin, base, params) == out.subrange(0, i) + crate::lit(
                "URI=\"",
            ) + uri_value_out(out.subrange(i + 5, jp), origin, base, params) + quote_lit
                + uri_scan(out.subrange(jp + 1, out.len() as int), origin, base, params));
            assert(uri_scan(out, origin, base, params) =~= out);
        },
    }
}

/// Under a well-formed origin the whole rewrite is a fixed point of
/// its own output: rewriting a rewritten playlist changes nothing.
pub proof fn lemma_rewrite_idempotent(
    body: Seq<u8>,
    origin: Seq<u8>,
    base: Seq<u8>,
    params: Seq<(Seq<u8>, Seq<u8>)>,
)
    requires
        origin_wf(origin),
    ensures
        rewrite_body_spec(rewrite_body_spec(body, origin, base, params), origin, base, params)
            == rewrite_body_spec(body, origin, base, params),
{
    lemma_split_no_sep(body, 0x0a);
    let segs = split_spec(body, 0x0a);
    assert forall|k: int, j: int|
        0 <= k < segs.len() && 0 <= j < segs[k].len() implies segs[k][j] != 0x0a by {}
    lemma_segments_fixpoint(segs, origin, base, params);
}

#[verifier::rlimit(100)]
proof fn lemma_segments_fixpoint(
    segs: Seq<Seq<u8>>,
    origin: Seq<u8>,
    base: Seq<u8>,
    params: Seq<(Seq<u8>, Seq<u8>)>,
)
    requires
        origin_wf(origin),
        forall|k: int| 0 <= k < segs.len() ==> no_nl(#[trigger] segs[k]),
    ensures
        rewrite_body_spec(rewrite_segments(segs, origin, base, params), origin, base, params)
            == rewrite_segments(segs, origin, base, params),
    decreases segs.len(),
{
    let out = rewrite_segments(segs, origin, base, params);
    reveal_strlit("\n");
    reveal_strlit("/proxy/");
    vstd::utf8::is_ascii_chars_encode_utf8("\n"@);
    vstd::utf8::is_ascii_chars_encode_utf8("/proxy/"@);
    let nl = crate::lit("\n");
    assert(nl.len() == 1 && nl[0] == 0x0a);
    if segs.len() == 0 {
        assert(split_spec(out, 0x0a) =~= seq![out]);
        assert(trim_spec(Seq::<u8>::empty()) =~= Seq::<u8>::empty());
        assert(seq![out].drop_first() =~= Seq::<Seq<u8>>::empty());
        assert(rewrite_segments(Seq::<Seq<u8>>::empty(), origin, base, params) =~= Seq::<
            u8,
        >::empty());
        assert(rewrite_body_spec(out, origin, base, params) =~= out);
    } else {
        lemma_segments_fixpoint(segs.drop_first(), origin, base, params);
        let rest_out = rewrite_segments(segs.drop_first(), origin, base, params);
        let t = trim_spec(segs[0]);
        proof_trim_no_nl(segs[0]);
        if t.len() == 0 {
            assert(out =~= rest_out);
        } else {
            // the first byte of the emitted line, and that the line
            // re-emits itself
            lemma_trim_start_props(segs[0]);
            lemma_trim_end_props(trim_start_spec(segs[0]));
            assert(!is_space(t[0])) by {
                assert(t[0] == trim_start_spec(segs[0])[0]);
            }
            assert(!is_space(t.last()));
            let pref = origin + crate::lit("/proxy/");
            let line: Seq<u8> = if t[0] == 0x23 {
                uri_scan(t, origin, base, params)
            } else if has_prefix(t, pref) {
                t
            } else {
                proxy_line(origin, crate::urlref::resolve_spec(base, t), params)
            };
            if t[0] == 0x23 {
                lemma_uri_scan_keeps_tag(t, origin, base, params);
                lemma_uri_scan_last(t, origin, base, params);
                lemma_uri_scan_no_nl(t, origin, base, params);
                lemma_trim_fixed(line);
                lemma_uri_scan_fixpoint(t, origin, base, params);
                assert(emit_line(line, origin, base, params) == line + nl);
            } else if has_prefix(t, pref) {
                lemma_trim_fixed(line);
                assert(emit_line(line, origin, base, params) == line + nl);
            } else {
                lemma_proxy_line_props(origin, crate::urlref::resolve_spec(base, t), params);
                lemma_proxy_line_no_nl(origin, crate::urlref::resolve_spec(base, t), params);
                assert(!is_space(line[0]) && line[0] != 0x23) by {
                    if origin.len() > 0 {
                        assert(line[0] == origin[0]);
                    } else {
                        assert(line[0] == 0x2fu8);
                    }
                }
                lemma_trim_fixed(line);
                assert(has_prefix(line, pref));
                assert(emit_line(line, origin, base, params) == line + nl);
            }
            assert(no_nl(line));
            assert(emit_line(t, origin, base, params) == line + nl);
            assert(out =~= line + seq![0x0au8] + rest_out);
            lemma_split_prepend(line, 0x0a, rest_out);
            let out_lines = split_spec(out, 0x0a);
            assert(out_lines == seq![line] + split_spec(rest_out, 0x0a));
            assert(out_lines.len() > 0 && out_lines[0] == line);
            assert(out_lines.drop_first() =~= split_spec(rest_out, 0x0a));
            assert(trim_spec(line) == line);
            assert(rewrite_segments(out_lines, origin, base, params) == emit_line(
                line,
                origin,
                base,
                params,
            ) + rewrite_segments(out_lines.drop_first(), origin, base, params));
            assert(rewrite_segments(out_lines.drop_first(), origin, base, params)
                == rewrite_body_spec(rest_out, origin, base, params));
            assert(rewrite_body_spec(rest_out, origin, base, params) == rest_out);
            assert(rewrite_body_spec(out, origin, base, params) == (line + nl) + rest_out);
            assert((line + nl) + rest_out =~= out);
        }
    }
}

} // verus!
