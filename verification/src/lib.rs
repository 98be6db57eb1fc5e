//! Core of a LAN media-casting helper.
//!
//! Two subsystems carry the weight: a local streaming proxy (request
//! planning, retrying upstream fetches, rewriting HLS playlists so that a
//! cast receiver fetches every segment back through the proxy) and a cast
//! session controller (discovery, the load handshake, and the session
//! store). All decision logic lives here with contracts; the surrounding
//! I/O (HTTP server, upstream fetches, mDNS, the TLS cast channel) is done
//! by an unverified shell that feeds plain values in and out.

pub mod cast;
pub mod discovery;
pub mod dns;
pub mod encode;
pub mod headers;
pub mod hls;
pub mod hls_props;
pub mod proxy;
pub mod query;
pub mod session;
pub mod status;
pub mod strbytes;
pub mod text;
pub mod titles;
pub mod urlref;

use vstd::prelude::*;

verus! {

/// The library works on byte strings; a text input enters as its UTF-8
/// bytes and leaves through a checked decoding.
pub open spec fn lit(s: &str) -> Seq<u8> {
    vstd::utf8::encode_utf8(s@)
}

} // verus!
