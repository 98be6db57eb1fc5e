//! The cast session controller's decisions: the content URL handed to a
//! receiver, subtitle track selection, the load handshake, and the
//! retry wrapper around it.
//!
//! The TLS channel itself is driven by the unverified shell; it asks
//! `next_action` what to do, performs it, and feeds the outcome back
//! through `advance`.

use crate::encode::{dec_bytes, lemma_dec_bytes_ascii, pe, push_dec_u16};
use crate::query::{push_query_with_url, query_pairs, query_with_url, views};
use crate::strbytes::{ascii_seq, bytes_of_string, into_string, lemma_ascii_decode};
use crate::text::{contains_spec, contains_sub, lower_spec, push_all, push_str_bytes, str_bytes,
    to_lower};
use vstd::prelude::*;
use vstd::utf8::{decode_utf8_encode_utf8, encode_utf8, encode_utf8_valid_utf8,
    valid_utf8_concat};

verus! {

/// The identifier of the default media receiver application.
pub fn default_app_id() -> (r: &'static str)
    ensures
        r@ == "CC1AD845"@,
{
    "CC1AD845"
}

/// A caller-supplied text subtitle track.
#[derive(Clone, Debug)]
pub struct SubtitleTrack {
    pub url: String,
    pub language: String,
    pub label: String,
}

/// A text track as the receiver's media channel takes it.
pub struct MediaTrack {
    pub track_id: u16,
    pub typ: String,
    pub content_id: String,
    pub content_type: String,
    pub name: String,
    pub language: String,
    pub subtype: String,
}

/// Whether a track's language selects it for activation.
pub open spec fn is_english(lang: Seq<char>) -> bool {
    lower_spec(encode_utf8(lang)) == crate::lit("en") || lower_spec(encode_utf8(lang))
        == crate::lit("english")
}

/// The track ids of the English tracks, counting from `next_id`.
pub open spec fn english_ids(subs: Seq<SubtitleTrack>, next_id: int) -> Seq<u16>
    decreases subs.len(),
{
    if subs.len() == 0 {
        seq![]
    } else {
        (if is_english(subs[0].language@) {
            seq![next_id as u16]
        } else {
            seq![]
        }) + english_ids(subs.drop_first(), next_id + 1)
    }
}

/// The ids to activate: every English track; failing that, the first
/// track; failing that, none.
pub open spec fn active_ids(subs: Seq<SubtitleTrack>) -> Seq<u16> {
    if english_ids(subs, 1).len() > 0 {
        english_ids(subs, 1)
    } else if subs.len() > 0 {
        seq![1u16]
    } else {
        seq![]
    }
}

proof fn lemma_english_ids_concat(a: Seq<SubtitleTrack>, b: Seq<SubtitleTrack>, next_id: int)
    ensures
        english_ids(a + b, next_id) == english_ids(a, next_id) + english_ids(b, next_id + a.len()),
    decreases a.len(),
{
    if a.len() == 0 {
        assert(a + b =~= b);
        assert(english_ids(a, next_id) + english_ids(b, next_id) =~= english_ids(b, next_id));
    } else {
        lemma_english_ids_concat(a.drop_first(), b, next_id + 1);
        assert((a + b).drop_first() =~= a.drop_first() + b);
        assert(english_ids(a + b, next_id) =~= english_ids(a, next_id) + english_ids(
            b,
            next_id + a.len(),
        ));
    }
}

/// Builds the receiver's track list and the active ids. Track ids are
/// 1-based; every track is a TEXT/SUBTITLES track of type `text/vtt`
/// named by its label; the active ids follow the English-first rule.
pub fn tracks_for(subs: &Vec<SubtitleTrack>) -> (r: (Vec<MediaTrack>, Vec<u16>))
    requires
        subs@.len() < 65536,
    ensures
        r.0@.len() == subs@.len(),
        forall|i: int|
            0 <= i < subs@.len() ==> {
                let t = #[trigger] r.0@[i];
                &&& t.track_id == i + 1
                &&& t.typ@ == "TEXT"@
                &&& t.content_id@ == subs@[i].url@
                &&& t.content_type@ == "text/vtt"@
                &&& t.name@ == subs@[i].label@
                &&& t.language@ == subs@[i].language@
                &&& t.subtype@ == "SUBTITLES"@
            },
        r.1@ == active_ids(subs@),
{
    let en = str_bytes("en");
    let english = str_bytes("english");
    let mut tracks: Vec<MediaTrack> = Vec::new();
    let mut matched: Vec<u16> = Vec::new();
    let mut i: usize = 0;
    while i < subs.len()
        invariant
            subs@.len() < 65536,
            en@ == crate::lit("en"),
            english@ == crate::lit("english"),
            0 <= i <= subs@.len(),
            tracks@.len() == i,
            forall|k: int|
                0 <= k < i ==> {
                    let t = #[trigger] tracks@[k];
                    &&& t.track_id == k + 1
                    &&& t.typ@ == "TEXT"@
                    &&& t.content_id@ == subs@[k].url@
                    &&& t.content_type@ == "text/vtt"@
                    &&& t.name@ == subs@[k].label@
                    &&& t.language@ == subs@[k].language@
                    &&& t.subtype@ == "SUBTITLES"@
                },
            matched@ == english_ids(subs@.subrange(0, i as int), 1),
        decreases subs.len() - i,
    {
        proof {
            let prefix = subs@.subrange(0, i as int);
            let single = seq![subs@[i as int]];
            assert(subs@.subrange(0, i + 1 as int) =~= prefix + single);
            lemma_english_ids_concat(prefix, single, 1);
            assert(single.drop_first() =~= Seq::<SubtitleTrack>::empty());
            assert(english_ids(Seq::<SubtitleTrack>::empty(), i + 2 as int) =~= Seq::<u16>::empty());
            if is_english(subs@[i as int].language@) {
                assert(english_ids(single, i + 1 as int) =~= seq![(i + 1) as u16]);
            } else {
                assert(english_ids(single, i + 1 as int) =~= Seq::<u16>::empty());
            }
        }
        let sub = &subs[i];
        let track_id: u16 = (i as u16) + 1;
        let lang_bytes = bytes_of_string(&sub.language);
        let lowered = to_lower(&lang_bytes);
        let is_en = crate::query::eq_bytes(&lowered, &en) || crate::query::eq_bytes(
            &lowered,
            &english,
        );
        proof {
            assert(is_en == is_english(subs@[i as int].language@));
        }
        if is_en {
            matched.push(track_id);
            proof {
                assert(matched@ =~= english_ids(subs@.subrange(0, i + 1 as int), 1));
            }
        } else {
            proof {
                assert(matched@ =~= english_ids(subs@.subrange(0, i + 1 as int), 1));
            }
        }
        tracks.push(
            MediaTrack {
                track_id,
                typ: "TEXT".to_owned(),
                content_id: sub.url.clone(),
                content_type: "text/vtt".to_owned(),
                name: sub.label.clone(),
                language: sub.language.clone(),
                subtype: "SUBTITLES".to_owned(),
            },
        );
        i = i + 1;
    }
    proof {
        assert(subs@.subrange(0, subs@.len() as int) =~= subs@);
    }
    let active: Vec<u16> = if matched.len() > 0 {
        matched
    } else if tracks.len() > 0 {
        let mut first: Vec<u16> = Vec::new();
        first.push(1);
        proof {
            assert(first@ =~= seq![1u16]);
        }
        first
    } else {
        matched
    };
    (tracks, active)
}

/// The path hint a load uses: the playlist hint when the declared
/// content type names `x-mpegURL` or `mpegurl`, else plain MP4.
pub open spec fn load_ext(content_type: Seq<u8>) -> Seq<u8> {
    if contains_spec(content_type, crate::lit("x-mpegURL")) || contains_spec(
        content_type,
        crate::lit("mpegurl"),
    ) {
        crate::lit("stream.m3u8")
    } else {
        crate::lit("stream.mp4")
    }
}

/// The URL handed to the receiver: it points at the proxy on the LAN
/// address and port, carries the origin URL percent-encoded under
/// `url`, and every caller header as a further parameter.
pub open spec fn content_url(
    lan_ip: Seq<u8>,
    port: u16,
    content_type: Seq<u8>,
    target: Seq<u8>,
    headers: Seq<(Seq<u8>, Seq<u8>)>,
) -> Seq<u8> {
    crate::lit("http://") + lan_ip + crate::lit(":") + dec_bytes(port as nat) + crate::lit(
        "/proxy/",
    ) + load_ext(content_type) + crate::lit("?") + query_with_url(target, headers)
}

/// The byte pairs of a list of string pairs.
pub open spec fn str_views(pairs: Seq<(String, String)>) -> Seq<(Seq<u8>, Seq<u8>)> {
    pairs.map_values(|p: (String, String)| (encode_utf8(p.0@), encode_utf8(p.1@)))
}

/// String pairs as byte pairs.
pub fn pairs_to_bytes(pairs: &Vec<(String, String)>) -> (r: Vec<(Vec<u8>, Vec<u8>)>)
    ensures
        views(r@) == str_views(pairs@),
{
    let mut out: Vec<(Vec<u8>, Vec<u8>)> = Vec::new();
    let mut i: usize = 0;
    while i < pairs.len()
        invariant
            0 <= i <= pairs@.len(),
            out@.len() == i,
            forall|k: int|
                0 <= k < i ==> (#[trigger] out@[k]).0@ == encode_utf8(pairs@[k].0@) && out@[k].1@
                    == encode_utf8(pairs@[k].1@),
        decreases pairs.len() - i,
    {
        let k = bytes_of_string(&pairs[i].0);
        let v = bytes_of_string(&pairs[i].1);
        out.push((k, v));
        i = i + 1;
    }
    proof {
        assert forall|k: int| 0 <= k < out@.len() implies views(out@)[k] == str_views(pairs@)[k] by {
            assert(views(out@)[k] == (out@[k].0@, out@[k].1@));
            assert(str_views(pairs@)[k] == (
                encode_utf8(pairs@[k].0@),
                encode_utf8(pairs@[k].1@),
            ));
        }
        assert(views(out@) =~= str_views(pairs@));
    }
    out
}

proof fn lemma_query_ascii(target: Seq<u8>, params: Seq<(Seq<u8>, Seq<u8>)>)
    ensures
        ascii_seq(query_with_url(target, params)),
{
    reveal_strlit("url=");
    vstd::utf8::is_ascii_chars_encode_utf8("url="@);
    crate::encode::lemma_pe_ascii(target);
    lemma_query_pairs_ascii(params);
    let q = query_with_url(target, params);
    let a = crate::lit("url=");
    let b = pe(target);
    let c = query_pairs(params);
    assert forall|i: int| 0 <= i < q.len() implies q[i] < 0x80 by {
        if i < a.len() {
            assert(q[i] == a[i]);
            assert("url="@[i] < 0x80 ==> a[i] < 0x80);
        } else if i < a.len() + b.len() {
            assert(q[i] == b[i - a.len()]);
        } else {
            assert(q[i] == c[i - a.len() - b.len()]);
        }
    }
}

proof fn lemma_query_pairs_ascii(params: Seq<(Seq<u8>, Seq<u8>)>)
    ensures
        ascii_seq(query_pairs(params)),
    decreases params.len(),
{
    reveal_strlit("&");
    reveal_strlit("=");
    vstd::utf8::is_ascii_chars_encode_utf8("&"@);
    vstd::utf8::is_ascii_chars_encode_utf8("="@);
    if params.len() > 0 {
        lemma_query_pairs_ascii(params.drop_first());
        crate::encode::lemma_pe_ascii(params[0].0);
        crate::encode::lemma_pe_ascii(params[0].1);
        let q = query_pairs(params);
        let a = crate::lit("&");
        let b = pe(params[0].0);
        let c = crate::lit("=");
        let d = pe(params[0].1);
        let e = query_pairs(params.drop_first());
        assert forall|i: int| 0 <= i < q.len() implies q[i] < 0x80 by {
            if i < a.len() {
                assert(q[i] == a[i]);
            } else if i < a.len() + b.len() {
                assert(q[i] == b[i - a.len()]);
            } else if i < a.len() + b.len() + c.len() {
                assert(q[i] == c[i - a.len() - b.len()]);
            } else if i < a.len() + b.len() + c.len() + d.len() {
                assert(q[i] == d[i - a.len() - b.len() - c.len()]);
            } else {
                assert(q[i] == e[i - a.len() - b.len() - c.len() - d.len()]);
            }
        }
    }
}

/// Builds the content URL as a string. Its UTF-8 bytes are exactly
/// `content_url` of the inputs' bytes.
pub fn build_content_url(
    lan_ip: &String,
    port: u16,
    content_type: &String,
    target: &String,
    headers: &Vec<(String, String)>,
) -> (r: String)
    ensures
        encode_utf8(r@) == content_url(
            encode_utf8(lan_ip@),
            port,
            encode_utf8(content_type@),
            encode_utf8(target@),
            str_views(headers@),
        ),
{
    let mut out = str_bytes("http://");
    let ip_bytes = bytes_of_string(lan_ip);
    push_all(&mut out, &ip_bytes);
    push_str_bytes(&mut out, ":");
    push_dec_u16(&mut out, port);
    push_str_bytes(&mut out, "/proxy/");
    let ct_bytes = bytes_of_string(content_type);
    let x_pat = str_bytes("x-mpegURL");
    let m_pat = str_bytes("mpegurl");
    if contains_sub(&ct_bytes, &x_pat) || contains_sub(&ct_bytes, &m_pat) {
        push_str_bytes(&mut out, "stream.m3u8");
    } else {
        push_str_bytes(&mut out, "stream.mp4");
    }
    push_str_bytes(&mut out, "?");
    let target_bytes = bytes_of_string(target);
    let header_bytes = pairs_to_bytes(headers);
    push_query_with_url(&mut out, &target_bytes, &header_bytes);
    proof {
        let e1 = crate::lit("http://");
        let e2 = encode_utf8(lan_ip@);
        let e3 = crate::lit(":");
        let e4 = dec_bytes(port as nat);
        let e5 = crate::lit("/proxy/");
        let e6 = load_ext(encode_utf8(content_type@));
        let e7 = crate::lit("?");
        let e8 = query_with_url(encode_utf8(target@), str_views(headers@));
        encode_utf8_valid_utf8("http://"@);
        encode_utf8_valid_utf8(lan_ip@);
        encode_utf8_valid_utf8(":"@);
        encode_utf8_valid_utf8("/proxy/"@);
        encode_utf8_valid_utf8("stream.m3u8"@);
        encode_utf8_valid_utf8("stream.mp4"@);
        encode_utf8_valid_utf8("?"@);
        lemma_dec_bytes_ascii(port as nat);
        lemma_ascii_decode(e4);
        lemma_query_ascii(encode_utf8(target@), str_views(headers@));
        lemma_ascii_decode(e8);
        valid_utf8_concat(e1, e2);
        valid_utf8_concat(e1 + e2, e3);
        valid_utf8_concat(e1 + e2 + e3, e4);
        valid_utf8_concat(e1 + e2 + e3 + e4, e5);
        valid_utf8_concat(e1 + e2 + e3 + e4 + e5, e6);
        valid_utf8_concat(e1 + e2 + e3 + e4 + e5 + e6, e7);
        valid_utf8_concat(e1 + e2 + e3 + e4 + e5 + e6 + e7, e8);
        assert(out@ == e1 + e2 + e3 + e4 + e5 + e6 + e7 + e8);
        decode_utf8_encode_utf8(out@);
    }
    into_string(out)
}

/// Everything a load needs, computed before any connection is made.
pub struct LoadPlan {
    pub content_id: String,
    pub content_type: String,
    pub tracks: Vec<MediaTrack>,
    pub active_track_ids: Vec<u16>,
}

/// Prepares a load. While no proxy port is published the load fails at
/// once — before any connection — with exactly the stream-server
/// error; otherwise the plan carries the proxy content URL, the
/// declared content type, and the subtitle tracks.
pub fn prepare_load(
    port: u16,
    lan_ip: &String,
    url: &String,
    content_type: &String,
    headers: &Vec<(String, String)>,
    subtitles: &Vec<SubtitleTrack>,
) -> (r: Result<LoadPlan, String>)
    requires
        subtitles@.len() < 65536,
    ensures
        r is Err <==> port == 0,
        r is Err ==> r->Err_0@ == "Stream server not started. Port is 0."@,
        r is Ok ==> ({
            let plan = r->Ok_0;
            &&& encode_utf8(plan.content_id@) == content_url(
                encode_utf8(lan_ip@),
                port,
                encode_utf8(content_type@),
                encode_utf8(url@),
                str_views(headers@),
            )
            &&& plan.content_type@ == content_type@
            &&& plan.tracks@.len() == subtitles@.len()
            &&& (forall|i: int|
                0 <= i < subtitles@.len() ==> {
                    let t = #[trigger] plan.tracks@[i];
                    &&& t.track_id == i + 1
                    &&& t.typ@ == "TEXT"@
                    &&& t.content_id@ == subtitles@[i].url@
                    &&& t.content_type@ == "text/vtt"@
                    &&& t.name@ == subtitles@[i].label@
                    &&& t.language@ == subtitles@[i].language@
                    &&& t.subtype@ == "SUBTITLES"@
                })
            &&& plan.active_track_ids@ == active_ids(subtitles@)
        }),
{
    if port == 0 {
        return Err("Stream server not started. Port is 0.".to_owned());
    }
    let content_id = build_content_url(lan_ip, port, content_type, url, headers);
    let (tracks, active_track_ids) = tracks_for(subtitles);
    Ok(LoadPlan { content_id, content_type: content_type.clone(), tracks, active_track_ids })
}

/// One application running on a receiver, as its status reports it.
pub struct AppEntry {
    pub app_id: String,
    pub transport_id: String,
    pub session_id: String,
}

/// The transport and session of the first running instance of the
/// default media receiver, if any.
pub open spec fn find_app_spec(apps: Seq<AppEntry>) -> Option<(Seq<char>, Seq<char>)>
    decreases apps.len(),
{
    if apps.len() == 0 {
        None
    } else if apps[0].app_id@ == "CC1AD845"@ {
        Some((apps[0].transport_id@, apps[0].session_id@))
    } else {
        find_app_spec(apps.drop_first())
    }
}

/// Whether the default media receiver already runs, and under which
/// transport and session: the first matching entry wins.
pub fn find_running_app(apps: &Vec<AppEntry>) -> (r: Option<(String, String)>)
    ensures
        match r {
            Some(p) => find_app_spec(apps@) == Some((p.0@, p.1@)),
            None => find_app_spec(apps@) is None,
        },
{
    let target = default_app_id().to_owned();
    proof {
        assert(apps@.subrange(0, apps@.len() as int) =~= apps@);
    }
    let mut i: usize = 0;
    while i < apps.len()
        invariant
            target@ == "CC1AD845"@,
            0 <= i <= apps@.len(),
            find_app_spec(apps@) == find_app_spec(apps@.subrange(i as int, apps@.len() as int)),
        decreases apps.len() - i,
    {
        proof {
            let tail = apps@.subrange(i as int, apps@.len() as int);
            assert(tail[0] == apps@[i as int]);
            assert(tail.drop_first() =~= apps@.subrange(i + 1 as int, apps@.len() as int));
        }
        if apps[i].app_id == target {
            return Some((apps[i].transport_id.clone(), apps[i].session_id.clone()));
        }
        i = i + 1;
    }
    proof {
        assert(apps@.subrange(apps@.len() as int, apps@.len() as int) =~= Seq::<AppEntry>::empty());
        assert(apps@.subrange(0, apps@.len() as int) =~= apps@);
    }
    None
}

/// Where a load stands.
#[derive(PartialEq, Eq, Structural, Clone, Copy, Debug)]
pub enum CastPhase {
    /// Nothing done yet: the TLS channel must be opened.
    Init,
    /// Channel open: the virtual receiver connection comes next.
    Connected,
    /// Receiver connection sent: a heartbeat keeps the channel alive.
    Handshake,
    /// Heartbeat answered: the receiver's status must be read.
    Alive,
    /// No running instance was found: the application must be launched.
    Launching,
    /// Transport and session are known: connect to the transport.
    AppReady,
    /// Transport connected: the media may be loaded.
    TransportReady,
    /// Load sent: hold the channel while the receiver starts fetching.
    Loaded,
    /// The load is complete.
    Done,
}

/// The step the shell must perform next.
pub enum CastAction {
    /// Open the TLS channel to the device, port 8009.
    ConnectTls,
    /// Send CONNECT for the virtual receiver destination.
    ConnectReceiver,
    /// Send a heartbeat PING.
    Ping,
    /// Ask for the receiver's status.
    GetStatus,
    /// Launch the default media receiver.
    LaunchApp,
    /// Send CONNECT for the session's transport.
    ConnectTransport,
    /// Pause briefly, then send the LOAD request.
    LoadMedia { pause_ms: u64 },
    /// Keep the channel open while the receiver fetches its first bytes.
    KeepAlive { hold_ms: u64 },
    /// Nothing is left to do.
    Finished,
}

/// The virtual destination of the receiver channel.
pub fn receiver_destination() -> (r: &'static str)
    ensures
        r@ == "receiver-0"@,
{
    "receiver-0"
}

/// A load in progress: its phase and, once known, the identifiers of
/// the application instance being addressed.
pub struct CastSession {
    pub phase: CastPhase,
    pub transport_id: String,
    pub session_id: String,
}

/// A fresh load: nothing connected, no identifiers.
pub fn session_start() -> (r: CastSession)
    ensures
        r.phase == CastPhase::Init,
        r.transport_id@ == Seq::<char>::empty(),
        r.session_id@ == Seq::<char>::empty(),
{
    CastSession { phase: CastPhase::Init, transport_id: String::new(), session_id: String::new() }
}

/// What to do in each phase, in the handshake's fixed order.
pub fn next_action(phase: &CastPhase) -> (r: CastAction)
    ensures
        ({
            match *phase {
                CastPhase::Init => r is ConnectTls,
                CastPhase::Connected => r is ConnectReceiver,
                CastPhase::Handshake => r is Ping,
                CastPhase::Alive => r is GetStatus,
                CastPhase::Launching => r is LaunchApp,
                CastPhase::AppReady => r is ConnectTransport,
                CastPhase::TransportReady => r matches CastAction::LoadMedia { pause_ms }
                    && pause_ms == 100,
                CastPhase::Loaded => r matches CastAction::KeepAlive { hold_ms } && hold_ms == 3000,
                CastPhase::Done => r is Finished,
            }
        }),
{
    match phase {
        CastPhase::Init => CastAction::ConnectTls,
        CastPhase::Connected => CastAction::ConnectReceiver,
        CastPhase::Handshake => CastAction::Ping,
        CastPhase::Alive => CastAction::GetStatus,
        CastPhase::Launching => CastAction::LaunchApp,
        CastPhase::AppReady => CastAction::ConnectTransport,
        CastPhase::TransportReady => CastAction::LoadMedia { pause_ms: 100 },
        CastPhase::Loaded => CastAction::KeepAlive { hold_ms: 3000 },
        CastPhase::Done => CastAction::Finished,
    }
}

/// What the shell reports back after performing an action.
pub enum CastEvent {
    /// The TLS channel is open.
    Opened,
    /// The receiver connection is established.
    ReceiverConnected,
    /// The heartbeat was answered.
    Pong,
    /// The receiver's status arrived with these running applications.
    Status { apps: Vec<AppEntry> },
    /// The launch succeeded with these identifiers.
    Launched { transport_id: String, session_id: String },
    /// The transport connection is established.
    TransportConnected,
    /// The receiver accepted the load.
    MediaLoaded,
    /// The keep-alive hold has passed.
    KeptAlive,
}

/// The transition relation of the load handshake.
pub open spec fn advance_spec(s: CastSession, event: CastEvent) -> Option<CastSession> {
    match (s.phase, event) {
        (CastPhase::Init, CastEvent::Opened) => Some(
            CastSession { phase: CastPhase::Connected, ..s },
        ),
        (CastPhase::Connected, CastEvent::ReceiverConnected) => Some(
            CastSession { phase: CastPhase::Handshake, ..s },
        ),
        (CastPhase::Handshake, CastEvent::Pong) => Some(
            CastSession { phase: CastPhase::Alive, ..s },
        ),
        (CastPhase::Alive, CastEvent::Status { apps }) => match find_app_spec(apps@) {
            Some(_) => Some(
                CastSession {
                    phase: CastPhase::AppReady,
                    transport_id: s.transport_id,
                    session_id: s.session_id,
                },
            ),
            None => Some(CastSession { phase: CastPhase::Launching, ..s }),
        },
        (CastPhase::Launching, CastEvent::Launched { transport_id, session_id }) => Some(
            CastSession { phase: CastPhase::AppReady, transport_id, session_id },
        ),
        (CastPhase::AppReady, CastEvent::TransportConnected) => Some(
            CastSession { phase: CastPhase::TransportReady, ..s },
        ),
        (CastPhase::TransportReady, CastEvent::MediaLoaded) => Some(
            CastSession { phase: CastPhase::Loaded, ..s },
        ),
        (CastPhase::Loaded, CastEvent::KeptAlive) => Some(
            CastSession { phase: CastPhase::Done, ..s },
        ),
        _ => None,
    }
}

/// Advances the load by one observed event. An adopted application's
/// identifiers come from the status; a launched one's from the launch
/// answer; every other step only moves the phase. An event that does
/// not fit the phase yields nothing.
pub fn advance(s: CastSession, event: CastEvent) -> (r: Option<CastSession>)
    ensures
        ({
            match (s.phase, &event) {
                (CastPhase::Alive, CastEvent::Status { apps }) => match find_app_spec(apps@) {
                    Some(ids) => r matches Some(n) && n.phase == CastPhase::AppReady
                        && n.transport_id@ == ids.0 && n.session_id@ == ids.1,
                    None => r matches Some(n) && n.phase == CastPhase::Launching && n.transport_id
                        == s.transport_id && n.session_id == s.session_id,
                },
                _ => r == advance_spec(s, event),
            }
        }),
{
    match (s.phase, event) {
        (CastPhase::Init, CastEvent::Opened) => Some(
            CastSession { phase: CastPhase::Connected, ..s },
        ),
        (CastPhase::Connected, CastEvent::ReceiverConnected) => Some(
            CastSession { phase: CastPhase::Handshake, ..s },
        ),
        (CastPhase::Handshake, CastEvent::Pong) => Some(
            CastSession { phase: CastPhase::Alive, ..s },
        ),
        (CastPhase::Alive, CastEvent::Status { apps }) => match find_running_app(&apps) {
            Option::Some(ids) => Some(
                CastSession {
                    phase: CastPhase::AppReady,
                    transport_id: ids.0,
                    session_id: ids.1,
                },
            ),
            Option::None => Some(CastSession { phase: CastPhase::Launching, ..s }),
        },
        (CastPhase::Launching, CastEvent::Launched { transport_id, session_id }) => Some(
            CastSession { phase: CastPhase::AppReady, transport_id, session_id },
        ),
        (CastPhase::AppReady, CastEvent::TransportConnected) => Some(
            CastSession { phase: CastPhase::TransportReady, ..s },
        ),
        (CastPhase::TransportReady, CastEvent::MediaLoaded) => Some(
            CastSession { phase: CastPhase::Loaded, ..s },
        ),
        (CastPhase::Loaded, CastEvent::KeptAlive) => Some(
            CastSession { phase: CastPhase::Done, ..s },
        ),
        _ => None,
    }
}

/// The tag naming the handshake step that failed.
pub open spec fn phase_prefix(phase: CastPhase) -> Seq<char> {
    match phase {
        CastPhase::Init => "Connect failed: "@,
        CastPhase::Connected => "Connect receiver-0 failed: "@,
        CastPhase::Handshake => "Heartbeat ping failed: "@,
        CastPhase::Alive => "Get status failed: "@,
        CastPhase::Launching => "Launch app failed: "@,
        CastPhase::AppReady => "Connect transport failed: "@,
        CastPhase::TransportReady => "Load media failed: "@,
        CastPhase::Loaded => "Load media failed: "@,
        CastPhase::Done => ""@,
    }
}

/// The error a failed step surfaces: the step's tag, then the detail.
pub fn failure_message(phase: &CastPhase, detail: &str) -> (r: String)
    ensures
        r@ == phase_prefix(*phase) + detail@,
{
    let prefix: &str = match phase {
        CastPhase::Init => "Connect failed: ",
        CastPhase::Connected => "Connect receiver-0 failed: ",
        CastPhase::Handshake => "Heartbeat ping failed: ",
        CastPhase::Alive => "Get status failed: ",
        CastPhase::Launching => "Launch app failed: ",
        CastPhase::AppReady => "Connect transport failed: ",
        CastPhase::TransportReady => "Load media failed: ",
        CastPhase::Loaded => "Load media failed: ",
        CastPhase::Done => "",
    };
    let mut out = prefix.to_owned();
    out.append(detail);
    out
}

/// What the load wrapper does after a failed attempt.
pub enum LoadRetryStep {
    /// Wait this long, then run the whole handshake again.
    Retry { delay_ms: u64 },
    /// The attempts are spent; surface the last error.
    GiveUp,
}

/// The whole handshake is tried at most three times, with one second
/// between attempts.
pub fn load_retry_decision(attempt: u64) -> (r: LoadRetryStep)
    ensures
        ({
            match r {
                LoadRetryStep::Retry { delay_ms } => attempt < 3 && delay_ms == 1000,
                LoadRetryStep::GiveUp => attempt >= 3,
            }
        }),
{
    if attempt < 3 {
        LoadRetryStep::Retry { delay_ms: 1000 }
    } else {
        LoadRetryStep::GiveUp
    }
}

/// The error surfaced when every attempt has failed.
pub fn load_failure_message(last_error: &str) -> (r: String)
    ensures
        r@ == "Failed after 3 attempts. Last error: "@ + last_error@,
{
    let mut out = "Failed after 3 attempts. Last error: ".to_owned();
    out.append(last_error);
    out
}

} // verus!
