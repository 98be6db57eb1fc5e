//! Absolute URLs and reference resolution, via the `url` crate.
//!
//! Playlist rewriting has to turn a relative segment reference into an
//! absolute URL against the playlist's own URL. The RFC 3986 resolution
//! itself is done by `url::Url`; its results are named here and every
//! decision around them is verified.

use crate::text::has_prefix;
use vstd::prelude::*;

verus! {

/// Whether the bytes decode as UTF-8 and `url::Url::parse` accepts them.
pub uninterp spec fn url_parse_ok(s: Seq<u8>) -> bool;

/// Whether resolving `rel` against the URL parsed from `base` succeeds.
pub uninterp spec fn url_join_ok(base: Seq<u8>, rel: Seq<u8>) -> bool;

/// The serialization of `rel` resolved against the URL parsed from
/// `base`, when that resolution succeeds.
pub uninterp spec fn url_join_of(base: Seq<u8>, rel: Seq<u8>) -> Seq<u8>;

/// Relies on `url::Url::parse` (and `str::from_utf8`): whether the bytes
/// form an absolute URL. The outcome depends on the bytes alone.
#[verifier::external_body]
pub fn parse_ok(s: &Vec<u8>) -> (r: bool)
    ensures
        r == url_parse_ok(s@),
{
    match core::str::from_utf8(s.as_slice()) {
        Ok(t) => url::Url::parse(t).is_ok(),
        Err(_) => false,
    }
}

/// Relies on `url::Url::parse` and `url::Url::join` (and
/// `str::from_utf8`): the serialization of `rel` resolved against `base`,
/// when both steps succeed. The outcome depends on the bytes alone.
#[verifier::external_body]
fn join_url(base: &Vec<u8>, rel: &Vec<u8>) -> (r: Option<Vec<u8>>)
    ensures
        r is Some <==> url_join_ok(base@, rel@),
        r is Some ==> r->0@ == url_join_of(base@, rel@),
{
    let b = core::str::from_utf8(base.as_slice()).ok()?;
    let l = core::str::from_utf8(rel.as_slice()).ok()?;
    let joined = url::Url::parse(b).ok()?.join(l).ok()?;
    Some(joined.as_str().as_bytes().to_vec())
}

/// A copy of the byte string.
pub fn copy_bytes(v: &Vec<u8>) -> (r: Vec<u8>)
    ensures
        r@ == v@,
{
    let mut out: Vec<u8> = Vec::new();
    crate::text::push_all(&mut out, v);
    out
}

/// The absolute form of a playlist reference: the reference itself when
/// it already begins with `http`, else the reference resolved against
/// the playlist's URL, else — when resolution fails — the reference
/// unchanged.
pub open spec fn resolve_spec(base: Seq<u8>, rel: Seq<u8>) -> Seq<u8> {
    if has_prefix(rel, crate::lit("http")) {
        rel
    } else if url_join_ok(base, rel) {
        url_join_of(base, rel)
    } else {
        rel
    }
}

pub fn resolve_reference(base: &Vec<u8>, rel: &Vec<u8>) -> (r: Vec<u8>)
    ensures
        r@ == resolve_spec(base@, rel@),
{
    let http = crate::text::str_bytes("http");
    if crate::text::starts_with(rel, &http) {
        copy_bytes(rel)
    } else {
        match join_url(base, rel) {
            Option::Some(j) => j,
            Option::None => copy_bytes(rel),
        }
    }
}

} // verus!
