//! The published proxy port, the status report, and the CORS policy.

use crate::encode::{dec_bytes, lemma_dec_bytes_ascii, push_dec_u16};
use crate::strbytes::{ascii_chars, ascii_seq, bytes_of_string, into_string, lemma_ascii_decode,
    lemma_decode_concat};
use crate::text::push_str_bytes;
use vstd::prelude::*;
use vstd::utf8::{decode_utf8, encode_utf8, encode_utf8_decode_utf8, encode_utf8_valid_utf8,
    valid_utf8};

verus! {

/// The proxy's listening port: 0 until the server has bound one, then
/// the bound port, written exactly once.
pub struct ProxyPort {
    pub port: u16,
}

impl ProxyPort {
    /// A fresh cell: nothing published yet.
    pub fn new() -> (r: ProxyPort)
        ensures
            r.port == 0,
    {
        ProxyPort { port: 0 }
    }

    /// The one-shot transition from 0 to a bound port.
    pub fn publish(&mut self, port: u16)
        requires
            old(self).port == 0,
            port != 0,
        ensures
            final(self).port == port,
    {
        self.port = port;
    }
}

/// The port as published: 0 while the server has not started.
pub fn get_server_port(state: &ProxyPort) -> (r: u16)
    ensures
        r == state.port,
{
    state.port
}

/// The status line a caller sees: the LAN address, a colon, the port.
pub open spec fn status_text(ip: Seq<char>, port: u16) -> Seq<char> {
    ip + ":"@ + ascii_chars(dec_bytes(port as nat))
}

/// The proxy's status: an error while no port is published, else
/// `<lan_ip>:<port>`, with `Unknown` standing in for an address the
/// shell could not determine.
pub fn get_proxy_status(state: &ProxyPort, lan_ip: Option<String>) -> (r: Result<String, String>)
    ensures
        r is Err <==> state.port == 0,
        r is Err ==> r->Err_0@ == "Proxy server not started"@,
        r is Ok ==> r->Ok_0@ == status_text(
            match lan_ip {
                Some(s) => s@,
                None => "Unknown"@,
            },
            state.port,
        ),
{
    if state.port == 0 {
        return Err("Proxy server not started".to_owned());
    }
    let ip = match lan_ip {
        Option::Some(s) => s,
        Option::None => "Unknown".to_owned(),
    };
    let mut b = bytes_of_string(&ip);
    push_str_bytes(&mut b, ":");
    push_dec_u16(&mut b, state.port);
    proof {
        let e1 = encode_utf8(ip@);
        let e2 = crate::lit(":");
        let e3 = dec_bytes(state.port as nat);
        encode_utf8_valid_utf8(ip@);
        encode_utf8_valid_utf8(":"@);
        lemma_dec_bytes_ascii(state.port as nat);
        assert(ascii_seq(e3));
        lemma_ascii_decode(e3);
        lemma_decode_concat(e1, e2);
        lemma_decode_concat(e1 + e2, e3);
        encode_utf8_decode_utf8(ip@);
        encode_utf8_decode_utf8(":"@);
        assert(b@ == (e1 + e2) + e3);
        assert(decode_utf8(b@) == ip@ + ":"@ + ascii_chars(e3));
    }
    Ok(into_string(b))
}

/// The browser-facing CORS policy: every origin, these methods, these
/// request headers, these exposed response headers.
pub struct CorsPolicy {
    pub methods: Vec<String>,
    pub allowed_headers: Vec<String>,
    pub exposed_headers: Vec<String>,
}

/// The policy the proxy serves with. Any origin is allowed; the lists
/// are pinned element by element.
pub fn cors_policy() -> (r: CorsPolicy)
    ensures
        r.methods@.len() == 4,
        r.methods@[0]@ == "GET"@,
        r.methods@[1]@ == "POST"@,
        r.methods@[2]@ == "OPTIONS"@,
        r.methods@[3]@ == "HEAD"@,
        r.allowed_headers@.len() == 13,
        r.allowed_headers@[0]@ == "Range"@,
        r.allowed_headers@[1]@ == "Content-Type"@,
        r.allowed_headers@[2]@ == "Origin"@,
        r.allowed_headers@[3]@ == "Accept"@,
        r.allowed_headers@[4]@ == "Authorization"@,
        r.allowed_headers@[5]@ == "User-Agent"@,
        r.allowed_headers@[6]@ == "Referer"@,
        r.allowed_headers@[7]@ == "Accept-Encoding"@,
        r.allowed_headers@[8]@ == "Accept-Language"@,
        r.allowed_headers@[9]@ == "Cache-Control"@,
        r.allowed_headers@[10]@ == "Connection"@,
        r.allowed_headers@[11]@ == "Host"@,
        r.allowed_headers@[12]@ == "Pragma"@,
        r.exposed_headers@.len() == 4,
        r.exposed_headers@[0]@ == "Content-Range"@,
        r.exposed_headers@[1]@ == "Content-Length"@,
        r.exposed_headers@[2]@ == "Accept-Ranges"@,
        r.exposed_headers@[3]@ == "Content-Type"@,
{
    let mut methods: Vec<String> = Vec::new();
    methods.push("GET".to_owned());
    methods.push("POST".to_owned());
    methods.push("OPTIONS".to_owned());
    methods.push("HEAD".to_owned());
    let mut allowed: Vec<String> = Vec::new();
    allowed.push("Range".to_owned());
    allowed.push("Content-Type".to_owned());
    allowed.push("Origin".to_owned());
    allowed.push("Accept".to_owned());
    allowed.push("Authorization".to_owned());
    allowed.push("User-Agent".to_owned());
    allowed.push("Referer".to_owned());
    allowed.push("Accept-Encoding".to_owned());
    allowed.push("Accept-Language".to_owned());
    allowed.push("Cache-Control".to_owned());
    allowed.push("Connection".to_owned());
    allowed.push("Host".to_owned());
    allowed.push("Pragma".to_owned());
    let mut exposed: Vec<String> = Vec::new();
    exposed.push("Content-Range".to_owned());
    exposed.push("Content-Length".to_owned());
    exposed.push("Accept-Ranges".to_owned());
    exposed.push("Content-Type".to_owned());
    CorsPolicy { methods, allowed_headers: allowed, exposed_headers: exposed }
}

} // verus!
