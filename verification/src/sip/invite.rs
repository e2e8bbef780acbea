//! The INVITE and BYE exchanges. An INVITE needs two calls to the media
//! server between its steps, so it is handled as three steps that the caller
//! runs in turn: read the offer, choose how to start the stream, answer.
use vstd::prelude::*;
use crate::error::{Fault, SipError};
use crate::num::{dec, is_digit, law_numeral_round_trip, lemma_dec_value, push_dec};
use crate::text::{
    contains, lemma_contains_middle, is_ws, lemma_lines_line, lemma_trim_by_fixed, lemma_trim_end_prefix, lemma_words_single,
    lemma_words_word, lines, starts_with, strip_prefixes, trim, trim_start_by, words, CharClass,
};
use crate::sip::register::text_result_view;
use crate::sip::session::{add_session, get_session, remove_session, SessionInfo, SessionStore, SessionView};
use crate::sip::state::{header_of, reply_spec, SipState};
use crate::sip::utils::{
    crlf, first_with_prefix, get_header, parse_sdp, sdp_passive, sdp_spec, sdp_ssrc, views,
};
use crate::stats::{invite_count, Stats};
use crate::zlm_client::{entry_is, opt_param, stream_exists, MediaEntry, ZlmClient};

verus! {

/// An INVITE whose media is to be served.
pub struct InviteCall {
    pub call_id: String,
    pub remote_ip: String,
    pub remote_port: u16,
    pub ssrc: u32,
    /// 1 for UDP, 0 for TCP.
    pub is_udp: u8,
    /// The peer takes the passive side, so the device sends to it.
    pub passive: bool,
}

/// What follows the provisional response.
pub enum InviteNext {
    /// The offer refuses the media: send this final response, and stop.
    Rejected(String),
    /// Look the stream up on the media server for this call.
    Stream(InviteCall),
}

/// The first step's outcome: the provisional response, then what follows.
pub struct InviteStart {
    pub trying: String,
    pub next: Result<InviteNext, SipError>,
}

/// How the stream is started, once the media list is known.
pub enum MediaStep {
    /// The stream is not on the media server: send this response, and stop.
    Unavailable(String),
    /// Ask the media server to start the RTP sender at this URL; its reply
    /// names the local port for the answer.
    Start(String),
}

/// What a BYE needs done.
pub struct ByeOutcome {
    /// The media server URL that stops the call's RTP sender, if the call had a session.
    pub stop_url: Option<String>,
    /// The final response.
    pub reply: Result<String, SipError>,
}

/// The view of an INVITE call.
pub open spec fn call_view(c: InviteCall) -> (Seq<char>, Seq<char>, u16, u32, u8, bool) {
    (c.call_id@, c.remote_ip@, c.remote_port, c.ssrc, c.is_udp, c.passive)
}

/// The virtual host the media server is addressed with.
pub open spec fn default_vhost() -> Seq<char> {
    "__defaultVhost__"@
}

/// The session description of the answer.
pub open spec fn answer_sdp(st: SipState, local_port: u16, is_udp: u8, passive: bool, ssrc: u32) -> Seq<
    char,
> {
    "v=0\r\no="@ + st.config.device_id@ + " 0 0 IN IP4 "@ + st.public_ip@ + "\r\ns=Play\r\nc=IN IP4 "@
        + st.public_ip@ + "\r\nt=0 0\r\nm=video "@ + dec(local_port as nat) + " "@ + (if is_udp == 1 {
        "RTP/AVP"@
    } else {
        "TCP/RTP/AVP"@
    }) + " 96\r\n"@ + (if is_udp == 0 {
        if passive {
            "a=setup:active\r\na=connection:new\r\n"@
        } else {
            "a=setup:passive\r\na=connection:new\r\n"@
        }
    } else {
        Seq::<char>::empty()
    }) + "a=rtpmap:96 PS/90000\r\ny="@ + dec(ssrc as nat) + "\r\n"@
}

/// The session an answered call records.
pub open spec fn session_for(st: SipState, ssrc: u32) -> SessionView {
    SessionView {
        ssrc: ssrc,
        stream_name: st.fixed_stream_name@,
        zlm_api_base: st.zlm@.0,
        zlm_secret: st.zlm@.1,
        app: st.fixed_app@,
    }
}

/// The URL that starts the RTP sender: sending to the peer when it is
/// passive, else waiting for the peer to fetch.
pub open spec fn start_url(st: SipState, call: (Seq<char>, Seq<char>, u16, u32, u8, bool)) -> Seq<char> {
    if call.5 {
        st.zlm@.0 + "/index/api/startSendRtp?secret="@ + st.zlm@.1 + "&vhost="@ + default_vhost()
            + "&app="@ + st.fixed_app@ + "&stream="@ + st.fixed_stream_name@ + "&ssrc="@ + dec(
            call.3 as nat,
        ) + "&dst_url="@ + call.1 + "&dst_port="@ + dec(call.2 as nat) + "&is_udp="@ + dec(
            call.4 as nat,
        ) + opt_param("src_port"@, None) + opt_param("pt"@, None) + opt_param("only_track"@, None)
    } else {
        st.zlm@.0 + "/index/api/startSendRtpPassive?secret="@ + st.zlm@.1 + "&vhost="@
            + default_vhost() + "&app="@ + st.fixed_app@ + "&stream="@ + st.fixed_stream_name@
            + "&ssrc="@ + dec(call.3 as nat) + "&is_udp="@ + dec(call.4 as nat) + opt_param(
            "only_track"@,
            None,
        ) + Seq::<char>::empty()
    }
}

/// The URL that stops a session's RTP sender.
pub open spec fn stop_url(s: SessionView) -> Seq<char> {
    s.zlm_api_base + "/index/api/stopSendRtp?secret="@ + s.zlm_secret + "&vhost="@ + default_vhost()
        + "&app="@ + s.app + "&stream="@ + s.stream_name + opt_param("ssrc"@, Some(s.ssrc as nat))
}

impl SipState {
    /// The first step of an INVITE: count it, produce `100 Trying`, and read
    /// the offer. A refused medium is answered `200 OK` with the device's tag.
    pub fn handle_invite(&self, stats: &mut Stats, headers: &[String], body: &str) -> (r: Result<
        InviteStart,
        SipError,
    >)
        requires
            old(stats).wf(),
            old(stats)@.total_invites < u64::MAX,
        ensures
            final(stats).wf(),
            final(stats)@.total_invites == old(stats)@.total_invites + 1,
            final(stats)@.invites == old(stats)@.invites.insert(
                self.config.device_id@,
                (invite_count(old(stats)@, self.config.device_id@) + 1) as u64,
            ),
            final(stats)@.registered == old(stats)@.registered,
            final(stats)@.total_devices == old(stats)@.total_devices,
            match reply_spec(self.peer_version@, "100 Trying"@, views(headers@), None, None) {
                Err(e) => r matches Err(x) && x@ == e,
                Ok(t) => r matches Ok(start) && start.trying@ == t && match sdp_spec(body@) {
                    Err(e) => start.next matches Err(x) && x@ == e,
                    Ok(offer) => if offer.4 {
                        match reply_spec(
                            self.peer_version@,
                            "200 OK"@,
                            views(headers@),
                            None,
                            Some(self.local_tag@),
                        ) {
                            Ok(m) => start.next matches Ok(InviteNext::Rejected(x)) && x@ == m,
                            Err(e) => start.next matches Err(x) && x@ == e,
                        }
                    } else {
                        match header_of(views(headers@), "Call-ID"@) {
                            None => start.next matches Err(x) && x@ == Fault::MissingHeader(
                                "Call-ID"@,
                            ),
                            Some(cid) => start.next matches Ok(InviteNext::Stream(c)) && call_view(c)
                                == (cid, offer.0, offer.1, offer.2, offer.3, offer.5),
                        }
                    },
                },
            },
    {
        stats.mark_invite(self.config.device_id.as_str());
        let trying = match self.reply_response("100 Trying", headers, None, None) {
            Ok(t) => t,
            Err(e) => {
                return Err(e);
            },
        };
        let next = match parse_sdp(body) {
            Err(e) => Err(e),
            Ok((remote_ip, remote_port, ssrc, is_udp, media_rejected, passive)) => {
                if media_rejected {
                    match self.reply_response("200 OK", headers, None, Some(self.local_tag.as_str())) {
                        Ok(m) => Ok(InviteNext::Rejected(m)),
                        Err(e) => Err(e),
                    }
                } else {
                    match get_header(headers, "Call-ID") {
                        None => Err(SipError::MissingHeader(String::from_str("Call-ID"))),
                        Some(cid) => Ok(
                            InviteNext::Stream(
                                InviteCall {
                                    call_id: cid.to_owned(),
                                    remote_ip,
                                    remote_port,
                                    ssrc,
                                    is_udp,
                                    passive,
                                },
                            ),
                        ),
                    }
                }
            },
        };
        Ok(InviteStart { trying, next })
    }

    /// The second step of an INVITE: with the media server's list at hand,
    /// answer `503 Service Unavailable` when the fixed stream is missing, else
    /// give the URL that starts its RTP sender.
    pub fn invite_media_step(&self, headers: &[String], call: &InviteCall, media: &[MediaEntry]) -> (r:
        Result<MediaStep, SipError>)
        ensures
            if exists|i: int|
                0 <= i < media@.len() && entry_is(
                    #[trigger] media@[i],
                    self.fixed_app@,
                    self.fixed_stream_name@,
                ) {
                r matches Ok(MediaStep::Start(u)) && u@ == start_url(*self, call_view(*call))
            } else {
                match reply_spec(
                    self.peer_version@,
                    "503 Service Unavailable"@,
                    views(headers@),
                    None,
                    None,
                ) {
                    Ok(m) => r matches Ok(MediaStep::Unavailable(x)) && x@ == m,
                    Err(e) => r matches Err(x) && x@ == e,
                }
            },
    {
        if !stream_exists(media, self.fixed_app.as_str(), self.fixed_stream_name.as_str()) {
            return match self.reply_response("503 Service Unavailable", headers, None, None) {
                Ok(m) => Ok(MediaStep::Unavailable(m)),
                Err(e) => Err(e),
            };
        }
        let url = if call.passive {
            self.zlm.start_send_rtp_url(
                "__defaultVhost__",
                self.fixed_app.as_str(),
                self.fixed_stream_name.as_str(),
                call.ssrc,
                call.remote_ip.as_str(),
                call.remote_port,
                call.is_udp,
                None,
                None,
                None,
            )
        } else {
            self.zlm.start_send_rtp_passive_url(
                "__defaultVhost__",
                self.fixed_app.as_str(),
                self.fixed_stream_name.as_str(),
                call.ssrc,
                call.is_udp,
                None,
                false,
            )
        };
        Ok(MediaStep::Start(url))
    }

    /// The session description answering an offer, with the media server's port.
    pub fn answer_body(&self, local_port: u16, is_udp: u8, passive: bool, ssrc: u32) -> (r: String)
        ensures
            r@ == answer_sdp(*self, local_port, is_udp, passive, ssrc),
    {
        let mut sdp = String::from_str("v=0\r\no=");
        sdp.append(self.config.device_id.as_str());
        sdp.append(" 0 0 IN IP4 ");
        sdp.append(self.public_ip.as_str());
        sdp.append("\r\ns=Play\r\nc=IN IP4 ");
        sdp.append(self.public_ip.as_str());
        sdp.append("\r\nt=0 0\r\nm=video ");
        push_dec(&mut sdp, local_port as u64);
        sdp.append(" ");
        if is_udp == 1 {
            sdp.append("RTP/AVP");
        } else {
            sdp.append("TCP/RTP/AVP");
        }
        sdp.append(" 96\r\n");
        let ghost s0 = sdp@;
        if is_udp == 0 {
            if passive {
                sdp.append("a=setup:active\r\na=connection:new\r\n");
            } else {
                sdp.append("a=setup:passive\r\na=connection:new\r\n");
            }
        } else {
            assert(sdp@ =~= s0 + Seq::<char>::empty());
        }
        sdp.append("a=rtpmap:96 PS/90000\r\ny=");
        push_dec(&mut sdp, ssrc as u64);
        sdp.append("\r\n");
        sdp
    }

    /// The last step of an INVITE: record the call's session and answer
    /// `200 OK` with the device's tag and a session description naming the
    /// media server's port.
    pub fn invite_answer(
        &self,
        sessions: &mut SessionStore,
        headers: &[String],
        call: &InviteCall,
        local_port: u16,
    ) -> (r: Result<String, SipError>)
        ensures
            final(sessions)@ == old(sessions)@.insert(call.call_id@, session_for(*self, call.ssrc)),
            text_result_view(r) == reply_spec(
                self.peer_version@,
                "200 OK"@,
                views(headers@),
                Some(answer_sdp(*self, local_port, call.is_udp, call.passive, call.ssrc)),
                Some(self.local_tag@),
            ),
    {
        let info = SessionInfo {
            ssrc: call.ssrc,
            stream_name: self.fixed_stream_name.clone(),
            zlm_api_base: self.zlm.api_base().to_owned(),
            zlm_secret: self.zlm.secret().to_owned(),
            app: self.fixed_app.clone(),
        };
        add_session(sessions, call.call_id.as_str(), info);
        let sdp = self.answer_body(local_port, call.is_udp, call.passive, call.ssrc);
        self.reply_response("200 OK", headers, Some(sdp.as_str()), Some(self.local_tag.as_str()))
    }

    /// Ends a call: forgets its session, gives the URL that stops its RTP
    /// sender when it had one, and answers `200 OK`.
    pub fn handle_bye(&self, sessions: &mut SessionStore, headers: &[String]) -> (r: Result<
        ByeOutcome,
        SipError,
    >)
        ensures
            match header_of(views(headers@), "Call-ID"@) {
                None => r matches Err(x) && x@ == Fault::MissingHeader("Call-ID"@) && final(sessions)@
                    == old(sessions)@,
                Some(cid) => {
                    &&& final(sessions)@ == old(sessions)@.remove(cid)
                    &&& r matches Ok(out)
                    &&& text_result_view(out.reply) == reply_spec(
                        self.peer_version@,
                        "200 OK"@,
                        views(headers@),
                        None,
                        None,
                    )
                    &&& if old(sessions)@.contains_key(cid) {
                        out.stop_url matches Some(u) && u@ == stop_url(old(sessions)@[cid])
                    } else {
                        out.stop_url is None
                    }
                },
            },
    {
        let call_id = match get_header(headers, "Call-ID") {
            Some(c) => c,
            None => {
                return Err(SipError::MissingHeader(String::from_str("Call-ID")));
            },
        };
        let stop = match get_session(sessions, call_id) {
            Some(info) => {
                let zlm = ZlmClient::for_node(info.zlm_api_base.as_str(), info.zlm_secret.as_str());
                let url = zlm.stop_send_rtp_url(
                    "__defaultVhost__",
                    info.app.as_str(),
                    info.stream_name.as_str(),
                    Some(info.ssrc),
                );
                remove_session(sessions, call_id);
                Some(url)
            },
            None => {
                assert(sessions@.remove(call_id@) =~= sessions@);
                None
            },
        };
        let reply = self.reply_response("200 OK", headers, None, None);
        Ok(ByeOutcome { stop_url: stop, reply })
    }
}


/// A BYE undoes the INVITE it ends: once a call's session is recorded, a BYE
/// with the same Call-ID finds it, stops exactly that session's RTP sender,
/// and leaves the other calls' sessions as they were before the INVITE.
pub proof fn law_bye_undoes_invite(
    before: Map<Seq<char>, SessionView>,
    st: SipState,
    call_id: Seq<char>,
    ssrc: u32,
)
    ensures
        before.insert(call_id, session_for(st, ssrc)).contains_key(call_id),
        stop_url(before.insert(call_id, session_for(st, ssrc))[call_id]) == stop_url(
            session_for(st, ssrc),
        ),
        before.insert(call_id, session_for(st, ssrc)).remove(call_id) == before.remove(call_id),
{
    assert(before.insert(call_id, session_for(st, ssrc)).remove(call_id) =~= before.remove(call_id));
}

// ---------------------------------------------------------------------------
// The answer read back
// ---------------------------------------------------------------------------

/// `v=0` as characters.
spec fn sdp_v() -> Seq<char> {
    seq!['v', '=', '0']
}

/// `o=` as characters.
spec fn sdp_o() -> Seq<char> {
    seq!['o', '=']
}

/// `0 0 IN IP4` as characters.
spec fn sdp_sp00() -> Seq<char> {
    seq![' ', '0', ' ', '0', ' ', 'I', 'N', ' ', 'I', 'P', '4', ' ']
}

/// `s=Play` as characters.
spec fn sdp_s() -> Seq<char> {
    seq!['s', '=', 'P', 'l', 'a', 'y']
}

/// `c=IN IP4` as characters.
spec fn sdp_c() -> Seq<char> {
    seq!['c', '=', 'I', 'N', ' ', 'I', 'P', '4', ' ']
}

/// `t=0 0` as characters.
spec fn sdp_t() -> Seq<char> {
    seq!['t', '=', '0', ' ', '0']
}

/// `m=video` as characters.
spec fn sdp_m() -> Seq<char> {
    seq!['m', '=', 'v', 'i', 'd', 'e', 'o', ' ']
}

/// `RTP/AVP` as characters.
spec fn sdp_udp() -> Seq<char> {
    seq!['R', 'T', 'P', '/', 'A', 'V', 'P']
}

/// `TCP/RTP/AVP` as characters.
spec fn sdp_tcp() -> Seq<char> {
    seq!['T', 'C', 'P', '/', 'R', 'T', 'P', '/', 'A', 'V', 'P']
}

/// `96` as characters.
spec fn sdp_96() -> Seq<char> {
    seq![' ', '9', '6']
}

/// `a=setup:active` as characters.
spec fn setup_active_line() -> Seq<char> {
    seq!['a', '=', 's', 'e', 't', 'u', 'p', ':', 'a', 'c', 't', 'i', 'v', 'e']
}

/// `a=setup:passive` as characters.
spec fn setup_passive_line() -> Seq<char> {
    seq!['a', '=', 's', 'e', 't', 'u', 'p', ':', 'p', 'a', 's', 's', 'i', 'v', 'e']
}

/// `a=connection:new` as characters.
spec fn sdp_conn() -> Seq<char> {
    seq!['a', '=', 'c', 'o', 'n', 'n', 'e', 'c', 't', 'i', 'o', 'n', ':', 'n', 'e', 'w']
}

/// `a=rtpmap:96 PS/90000` as characters.
spec fn sdp_rtpmap() -> Seq<char> {
    seq!['a', '=', 'r', 't', 'p', 'm', 'a', 'p', ':', '9', '6', ' ', 'P', 'S', '/', '9', '0', '0', '0', '0']
}

/// `y=` as characters.
spec fn sdp_y() -> Seq<char> {
    seq!['y', '=']
}


/// The transport field of an answer's media line.
spec fn sdp_proto(is_udp: u8) -> Seq<char> {
    if is_udp == 1 {
        sdp_udp()
    } else {
        sdp_tcp()
    }
}

/// The setup lines of an answer: over TCP, the device's role and a new connection.
spec fn sdp_setup_lines(is_udp: u8, passive: bool) -> Seq<Seq<char>> {
    if is_udp == 0 {
        seq![
            if passive {
                setup_active_line()
            } else {
                setup_passive_line()
            },
            sdp_conn(),
        ]
    } else {
        seq![]
    }
}

/// The lines of an answer.
spec fn answer_lines(st: SipState, local_port: u16, is_udp: u8, passive: bool, ssrc: u32) -> Seq<
    Seq<char>,
> {
    seq![
        sdp_v(),
        sdp_o() + st.config.device_id@ + sdp_sp00() + st.public_ip@,
        sdp_s(),
        sdp_c() + st.public_ip@,
        sdp_t(),
        sdp_m() + dec(local_port as nat) + seq![' '] + sdp_proto(is_udp) + sdp_96(),
    ] + sdp_setup_lines(is_udp, passive) + seq![sdp_rtpmap(), sdp_y() + dec(ssrc as nat)]
}

/// The literal pieces of an answer, character by character.
#[verifier::spinoff_prover]
proof fn lemma_answer_literals()
    ensures
        "v=0\r\no="@ == sdp_v() + crlf() + sdp_o(),
        " 0 0 IN IP4 "@ == sdp_sp00(),
        "\r\ns=Play\r\nc=IN IP4 "@ == crlf() + sdp_s() + crlf() + sdp_c(),
        "\r\nt=0 0\r\nm=video "@ == crlf() + sdp_t() + crlf() + sdp_m(),
        " "@ == seq![' '],
        "RTP/AVP"@ == sdp_udp(),
        "TCP/RTP/AVP"@ == sdp_tcp(),
        " 96\r\n"@ == sdp_96() + crlf(),
        "a=setup:active\r\na=connection:new\r\n"@ == setup_active_line() + crlf() + sdp_conn() + crlf(),
        "a=setup:passive\r\na=connection:new\r\n"@ == setup_passive_line() + crlf() + sdp_conn() + crlf(),
        "a=rtpmap:96 PS/90000\r\ny="@ == sdp_rtpmap() + crlf() + sdp_y(),
        "\r\n"@ == crlf(),
        "a=setup:passive"@ == setup_passive_line(),
        "TCP/RTP/AVP"@ == sdp_tcp(),
{
    reveal_strlit("v=0\r\no=");
    reveal_strlit(" 0 0 IN IP4 ");
    reveal_strlit("\r\ns=Play\r\nc=IN IP4 ");
    reveal_strlit("\r\nt=0 0\r\nm=video ");
    reveal_strlit(" ");
    reveal_strlit("RTP/AVP");
    reveal_strlit("TCP/RTP/AVP");
    reveal_strlit(" 96\r\n");
    reveal_strlit("a=setup:active\r\na=connection:new\r\n");
    reveal_strlit("a=setup:passive\r\na=connection:new\r\n");
    reveal_strlit("a=rtpmap:96 PS/90000\r\ny=");
    reveal_strlit("\r\n");
    reveal_strlit("a=setup:passive");
    assert("v=0\r\no="@ =~= sdp_v() + crlf() + sdp_o());
    assert(" 0 0 IN IP4 "@ =~= sdp_sp00());
    assert("\r\ns=Play\r\nc=IN IP4 "@ =~= crlf() + sdp_s() + crlf() + sdp_c());
    assert("\r\nt=0 0\r\nm=video "@ =~= crlf() + sdp_t() + crlf() + sdp_m());
    assert(" "@ =~= seq![' ']);
    assert("RTP/AVP"@ =~= sdp_udp());
    assert("TCP/RTP/AVP"@ =~= sdp_tcp());
    assert(" 96\r\n"@ =~= sdp_96() + crlf());
    assert("a=setup:active\r\na=connection:new\r\n"@ =~= setup_active_line() + crlf() + sdp_conn() + crlf());
    assert("a=setup:passive\r\na=connection:new\r\n"@ =~= setup_passive_line() + crlf() + sdp_conn()
        + crlf());
    assert("a=rtpmap:96 PS/90000\r\ny="@ =~= sdp_rtpmap() + crlf() + sdp_y());
    assert("\r\n"@ =~= crlf());
    assert("a=setup:passive"@ =~= setup_passive_line());
}

/// The text holds no line feed.
spec fn no_lf(s: Seq<char>) -> bool {
    forall|k: int| 0 <= k < s.len() ==> #[trigger] s[k] != '\n'
}

/// Joining texts without line feeds makes none.
proof fn lemma_no_lf_concat(a: Seq<char>, b: Seq<char>)
    requires
        no_lf(a),
        no_lf(b),
    ensures
        no_lf(a + b),
{
    assert forall|k: int| 0 <= k < (a + b).len() implies #[trigger] (a + b)[k] != '\n' by {
        if k < a.len() {
            assert((a + b)[k] == a[k]);
        } else {
            assert((a + b)[k] == b[k - a.len()]);
        }
    }
}

/// A numeral holds no line feed and no whitespace.
proof fn lemma_dec_plain(n: nat)
    ensures
        no_lf(dec(n)),
        dec(n).len() > 0,
        forall|k: int| 0 <= k < dec(n).len() ==> !is_ws(#[trigger] dec(n)[k]),
{
    lemma_dec_value(n);
    assert forall|k: int| 0 <= k < dec(n).len() implies #[trigger] dec(n)[k] != '\n' && !is_ws(
        dec(n)[k],
    ) by {
        assert(is_digit(dec(n)[k]));
    }
}

/// The setup lines of an answer as text, each ended by CRLF.
spec fn sdp_setup_text(is_udp: u8, passive: bool) -> Seq<char> {
    if is_udp == 0 {
        (if passive {
            setup_active_line()
        } else {
            setup_passive_line()
        }) + crlf() + sdp_conn() + crlf()
    } else {
        Seq::<char>::empty()
    }
}

/// The last lines of an answer joined, each ended by CRLF.
spec fn answer_tail(l5: Seq<char>, setup: Seq<char>, l8: Seq<char>, l9: Seq<char>) -> Seq<char> {
    l5 + crlf() + (setup + (l8 + crlf() + (l9 + crlf() + Seq::<char>::empty())))
}

/// Lines joined as an answer joins them, each ended by CRLF.
spec fn answer_layout(
    l0: Seq<char>,
    l1: Seq<char>,
    l2: Seq<char>,
    l3: Seq<char>,
    l4: Seq<char>,
    l5: Seq<char>,
    setup: Seq<char>,
    l8: Seq<char>,
    l9: Seq<char>,
) -> Seq<char> {
    let c = crlf();
    l0 + c + (l1 + c + (l2 + c + (l3 + c + (l4 + c + answer_tail(l5, setup, l8, l9)))))
}

/// Regrouping the answer text line by line.
#[verifier::spinoff_prover]
#[verifier::rlimit(50)]
proof fn lemma_answer_regroup(
    v: Seq<char>,
    o: Seq<char>,
    dev: Seq<char>,
    sp00: Seq<char>,
    ip: Seq<char>,
    s: Seq<char>,
    cc: Seq<char>,
    t: Seq<char>,
    m: Seq<char>,
    dp: Seq<char>,
    sp: Seq<char>,
    proto: Seq<char>,
    n96: Seq<char>,
    setup: Seq<char>,
    r: Seq<char>,
    y: Seq<char>,
    ds: Seq<char>,
)
    ensures
        (v + crlf() + o) + dev + sp00 + ip + (crlf() + s + crlf() + cc) + ip + (crlf() + t + crlf()
            + m) + dp + sp + proto + (n96 + crlf()) + setup + (r + crlf() + y) + ds + crlf()
            == answer_layout(v, o + dev + sp00 + ip, s, cc + ip, t, m + dp + sp + proto + n96, setup, r, y + ds),
{
    let c = crlf();
    let lhs = (v + c + o) + dev + sp00 + ip + (c + s + c + cc) + ip + (c + t + c + m) + dp + sp
        + proto + (n96 + c) + setup + (r + c + y) + ds + c;
    let tail = answer_tail(m + dp + sp + proto + n96, setup, r, y + ds);
    let rhs = v + c + ((o + dev + sp00 + ip) + c + (s + c + ((cc + ip) + c + (t + c + tail))));
    assert(lhs =~= rhs);
}

/// An answer laid out line by line.
#[verifier::spinoff_prover]
proof fn lemma_answer_text(st: SipState, local_port: u16, is_udp: u8, passive: bool, ssrc: u32)
    ensures
        answer_sdp(st, local_port, is_udp, passive, ssrc) == answer_layout(
            sdp_v(),
            sdp_o() + st.config.device_id@ + sdp_sp00() + st.public_ip@,
            sdp_s(),
            sdp_c() + st.public_ip@,
            sdp_t(),
            sdp_m() + dec(local_port as nat) + seq![' '] + sdp_proto(is_udp) + sdp_96(),
            sdp_setup_text(is_udp, passive),
            sdp_rtpmap(),
            sdp_y() + dec(ssrc as nat),
        ),
{
    lemma_answer_literals();
    lemma_answer_regroup(
        sdp_v(),
        sdp_o(),
        st.config.device_id@,
        sdp_sp00(),
        st.public_ip@,
        sdp_s(),
        sdp_c(),
        sdp_t(),
        sdp_m(),
        dec(local_port as nat),
        seq![' '],
        sdp_proto(is_udp),
        sdp_96(),
        sdp_setup_text(is_udp, passive),
        sdp_rtpmap(),
        sdp_y(),
        dec(ssrc as nat),
    );
}

/// Lines without line feeds, laid out as an answer: `lines` gives them back.
#[verifier::spinoff_prover]
proof fn lemma_answer_layout_lines(
    l0: Seq<char>,
    l1: Seq<char>,
    l2: Seq<char>,
    l3: Seq<char>,
    l4: Seq<char>,
    l5: Seq<char>,
    is_udp: u8,
    passive: bool,
    l8: Seq<char>,
    l9: Seq<char>,
)
    requires
        no_lf(l0) && no_lf(l1) && no_lf(l2) && no_lf(l3) && no_lf(l4) && no_lf(l5),
        no_lf(l8) && no_lf(l9),
    ensures
        lines(answer_layout(l0, l1, l2, l3, l4, l5, sdp_setup_text(is_udp, passive), l8, l9)) == seq![
            l0,
            l1,
            l2,
            l3,
            l4,
            l5,
        ] + sdp_setup_lines(is_udp, passive) + seq![l8, l9],
{
    let c = crlf();
    let e = Seq::<char>::empty();
    let x9 = l9 + c + e;
    let x8 = l8 + c + x9;
    let setup = sdp_setup_text(is_udp, passive);
    let xs = setup + x8;
    assert(lines(e) == Seq::<Seq<char>>::empty());
    lemma_lines_line(l9, e);
    lemma_lines_line(l8, x9);
    if is_udp == 0 {
        let la = if passive {
            setup_active_line()
        } else {
            setup_passive_line()
        };
        assert(xs =~= la + c + (sdp_conn() + c + x8));
        lemma_lines_line(sdp_conn(), x8);
        lemma_lines_line(la, sdp_conn() + c + x8);
    } else {
        assert(xs =~= x8);
    }
    let x5 = l5 + c + xs;
    let x4 = l4 + c + x5;
    let x3 = l3 + c + x4;
    let x2 = l2 + c + x3;
    let x1 = l1 + c + x2;
    lemma_lines_line(l5, xs);
    lemma_lines_line(l4, x5);
    lemma_lines_line(l3, x4);
    lemma_lines_line(l2, x3);
    lemma_lines_line(l1, x2);
    lemma_lines_line(l0, x1);
    assert(lines(xs) =~= sdp_setup_lines(is_udp, passive) + seq![l8, l9]);
    assert(lines(l0 + c + x1) =~= seq![l0, l1, l2, l3, l4, l5] + sdp_setup_lines(is_udp, passive)
        + seq![l8, l9]);
}

/// Split into lines, an answer gives the lines it was written from.
#[verifier::spinoff_prover]
proof fn lemma_answer_lines(st: SipState, local_port: u16, is_udp: u8, passive: bool, ssrc: u32)
    requires
        no_lf(st.config.device_id@),
        no_lf(st.public_ip@),
    ensures
        lines(answer_sdp(st, local_port, is_udp, passive, ssrc)) == answer_lines(
            st,
            local_port,
            is_udp,
            passive,
            ssrc,
        ),
{
    let dev = st.config.device_id@;
    let ip = st.public_ip@;
    let dp = dec(local_port as nat);
    let ds = dec(ssrc as nat);
    lemma_dec_plain(local_port as nat);
    lemma_dec_plain(ssrc as nat);
    lemma_no_lf_concat(sdp_o(), dev);
    lemma_no_lf_concat(sdp_o() + dev, sdp_sp00());
    lemma_no_lf_concat(sdp_o() + dev + sdp_sp00(), ip);
    lemma_no_lf_concat(sdp_c(), ip);
    lemma_no_lf_concat(sdp_m(), dp);
    lemma_no_lf_concat(sdp_m() + dp, seq![' ']);
    lemma_no_lf_concat(sdp_m() + dp + seq![' '], sdp_proto(is_udp));
    lemma_no_lf_concat(sdp_m() + dp + seq![' '] + sdp_proto(is_udp), sdp_96());
    lemma_no_lf_concat(sdp_y(), ds);
    lemma_answer_text(st, local_port, is_udp, passive, ssrc);
    lemma_answer_layout_lines(
        sdp_v(),
        sdp_o() + dev + sdp_sp00() + ip,
        sdp_s(),
        sdp_c() + ip,
        sdp_t(),
        sdp_m() + dp + seq![' '] + sdp_proto(is_udp) + sdp_96(),
        is_udp,
        passive,
        sdp_rtpmap(),
        sdp_y() + ds,
    );
}

/// A line whose first character differs from `p`'s does not start with `p`.
proof fn lemma_not_prefix(l: Seq<char>, p: Seq<char>)
    requires
        p.len() > 0,
        l.len() > 0,
        l[0] != p[0],
    ensures
        !starts_with(l, p),
{
    if starts_with(l, p) {
        assert(l.subrange(0, p.len() as int)[0] == l[0]);
    }
}

/// Trimming keeps a first character that is not whitespace.
proof fn lemma_trim_keeps_first(l: Seq<char>)
    requires
        l.len() > 0,
        !is_ws(l[0]),
    ensures
        trim(l).len() > 0,
        trim(l)[0] == l[0],
{
    assert(trim_start_by(l, CharClass::Whitespace) == l);
    let j = lemma_trim_end_prefix(l, CharClass::Whitespace);
    if j == 0 {
        assert(CharClass::Whitespace.has(l[0]));
    }
}

/// Where the `c=`, `m=` and `y=` lines of an answer are.
proof fn lemma_answer_line_places(ls: Seq<Seq<char>>, is_udp: u8, passive: bool)
    requires
        ls.len() == 8 + sdp_setup_lines(is_udp, passive).len(),
        ls[0] == sdp_v(),
        ls[1].len() > 0 && ls[1][0] == 'o',
        ls[2] == sdp_s(),
        ls[3].len() > 1 && ls[3][0] == 'c' && ls[3][1] == '=',
        ls[4] == sdp_t(),
        ls[5].len() > 1 && ls[5][0] == 'm' && ls[5][1] == '=',
        forall|i: int| 6 <= i < ls.len() - 1 ==> (#[trigger] ls[i]).len() > 0 && ls[i][0] == 'a',
        ls[ls.len() - 1].len() > 1 && ls[ls.len() - 1][0] == 'y' && ls[ls.len() - 1][1] == '=',
    ensures
        first_with_prefix(ls, seq!['c', '='], 0) == Some(3int),
        first_with_prefix(ls, seq!['m', '='], 0) == Some(5int),
        first_with_prefix(ls, seq!['y', '='], 0) == Some(ls.len() - 1),
{
    let cp = seq!['c', '='];
    let mp = seq!['m', '='];
    let yp = seq!['y', '='];
    let last = ls.len() - 1;
    assert(ls[3].subrange(0, 2) =~= cp);
    assert(ls[5].subrange(0, 2) =~= mp);
    assert(ls[last].subrange(0, 2) =~= yp);
    assert forall|i: int| 0 <= i < last && i != 3 implies !starts_with(#[trigger] ls[i], cp) by {
        assert(ls[i].len() > 0);
        lemma_not_prefix(ls[i], cp);
    }
    assert forall|i: int| 0 <= i < last && i != 5 implies !starts_with(#[trigger] ls[i], mp) by {
        assert(ls[i].len() > 0);
        lemma_not_prefix(ls[i], mp);
    }
    assert forall|i: int| 0 <= i < last implies !starts_with(#[trigger] ls[i], yp) by {
        assert(ls[i].len() > 0);
        lemma_not_prefix(ls[i], yp);
    }
    lemma_first_with_prefix_after(ls, cp, 0, 3);
    lemma_first_with_prefix_after(ls, mp, 0, 5);
    lemma_first_with_prefix_after(ls, yp, 0, last);
}

/// With no line in `[i, k)` starting with `p` and line `k` starting with it,
/// the first such line from `i` is `k`.
proof fn lemma_first_with_prefix_after(ls: Seq<Seq<char>>, p: Seq<char>, i: int, k: int)
    requires
        0 <= i <= k < ls.len(),
        starts_with(ls[k], p),
        forall|j: int| i <= j < k ==> !starts_with(#[trigger] ls[j], p),
    ensures
        first_with_prefix(ls, p, i) == Some(k),
    decreases k - i,
{
    if i < k {
        lemma_first_with_prefix_after(ls, p, i + 1, k);
    }
}

/// The lines of an answer, by their first characters.
#[verifier::spinoff_prover]
proof fn lemma_answer_shape(st: SipState, local_port: u16, is_udp: u8, passive: bool, ssrc: u32)
    ensures
        ({
            let ls = answer_lines(st, local_port, is_udp, passive, ssrc);
            let last = ls.len() - 1;
            &&& ls.len() == 8 + sdp_setup_lines(is_udp, passive).len()
            &&& ls[0] == sdp_v()
            &&& ls[1].len() > 0 && ls[1][0] == 'o'
            &&& ls[2] == sdp_s()
            &&& ls[3] == sdp_c() + st.public_ip@
            &&& ls[3].len() > 1 && ls[3][0] == 'c' && ls[3][1] == '='
            &&& ls[4] == sdp_t()
            &&& ls[5] == sdp_m() + dec(local_port as nat) + seq![' '] + sdp_proto(is_udp) + sdp_96()
            &&& ls[5].len() > 1 && ls[5][0] == 'm' && ls[5][1] == '='
            &&& forall|i: int| 6 <= i < last ==> (#[trigger] ls[i]).len() > 0 && ls[i][0] == 'a'
            &&& ls[last] == sdp_y() + dec(ssrc as nat)
            &&& ls[last].len() > 1 && ls[last][0] == 'y' && ls[last][1] == '='
        }),
{
    let ls = answer_lines(st, local_port, is_udp, passive, ssrc);
    let last = ls.len() - 1;
    assert(ls[1] == sdp_o() + st.config.device_id@ + sdp_sp00() + st.public_ip@);
    assert(ls[1][0] == 'o');
    assert(ls[3][0] == 'c' && ls[3][1] == '=');
    assert(ls[5][0] == 'm' && ls[5][1] == '=');
    assert(ls[last] == sdp_y() + dec(ssrc as nat));
    assert(ls[last][0] == 'y' && ls[last][1] == '=');
    assert forall|i: int| 6 <= i < last implies (#[trigger] ls[i]).len() > 0 && ls[i][0] == 'a' by {
        if is_udp == 0 {
            if i == 6 {
                assert(ls[i] == (if passive {
                    setup_active_line()
                } else {
                    setup_passive_line()
                }));
            } else if i == 7 {
                assert(ls[i] == sdp_conn());
            } else {
                assert(ls[i] == sdp_rtpmap());
            }
        } else {
            assert(ls[i] == sdp_rtpmap());
        }
    }
}

/// The words of an answer's `c=` line end with the address.
proof fn lemma_answer_address_words(ip: Seq<char>)
    requires
        ip.len() > 0,
        forall|k: int| 0 <= k < ip.len() ==> !is_ws(#[trigger] ip[k]),
    ensures
        words(sdp_c() + ip) == seq![seq!['c', '=', 'I', 'N'], seq!['I', 'P', '4'], ip],
{
    let cin = seq!['c', '=', 'I', 'N'];
    let ip4 = seq!['I', 'P', '4'];
    assert(sdp_c() + ip =~= cin + seq![' '] + (ip4 + seq![' '] + ip));
    lemma_words_word(cin, ip4 + seq![' '] + ip);
    lemma_words_word(ip4, ip);
    lemma_words_single(ip);
    assert(words(sdp_c() + ip) =~= seq![cin, ip4, ip]);
}

/// The words of an answer's `m=` line: the medium, the port, the transport
/// and the payload type.
proof fn lemma_answer_media_words(local_port: u16, is_udp: u8)
    ensures
        words(sdp_m() + dec(local_port as nat) + seq![' '] + sdp_proto(is_udp) + sdp_96()) == seq![
            seq!['m', '=', 'v', 'i', 'd', 'e', 'o'],
            dec(local_port as nat),
            sdp_proto(is_udp),
            seq!['9', '6'],
        ],
{
    let dp = dec(local_port as nat);
    lemma_dec_plain(local_port as nat);
    let mv = seq!['m', '=', 'v', 'i', 'd', 'e', 'o'];
    let n96 = seq!['9', '6'];
    let proto = sdp_proto(is_udp);
    assert(sdp_m() + dp + seq![' '] + proto + sdp_96() =~= mv + seq![' '] + (dp + seq![' '] + (proto
        + seq![' '] + n96)));
    lemma_words_word(mv, dp + seq![' '] + (proto + seq![' '] + n96));
    lemma_words_word(dp, proto + seq![' '] + n96);
    lemma_words_word(proto, n96);
    lemma_words_single(n96);
    assert(words(sdp_m() + dp + seq![' '] + proto + sdp_96()) =~= seq![mv, dp, proto, n96]);
}

/// An answer's `y=` line, after its prefix, is the SSRC's numeral.
proof fn lemma_answer_ssrc_text(ssrc: u32)
    ensures
        strip_prefixes(sdp_y() + dec(ssrc as nat), seq!['y', '=']) == dec(ssrc as nat),
{
    let ds = dec(ssrc as nat);
    let yl = sdp_y() + ds;
    lemma_dec_plain(ssrc as nat);
    lemma_dec_value(ssrc as nat);
    assert(is_digit(ds[0]));
    assert(yl.skip(2) =~= ds);
    lemma_not_prefix(ds, seq!['y', '=']);
    assert(strip_prefixes(ds, seq!['y', '=']) == ds);
    assert(yl.subrange(0, 2) =~= seq!['y', '=']);
    assert(starts_with(yl, seq!['y', '=']));
    assert(strip_prefixes(yl, seq!['y', '=']) == strip_prefixes(yl.skip(2), seq!['y', '=']));
}

/// An answer has a line that trims to `a=setup:passive` exactly when the
/// transport is TCP and the peer did not take the passive side.
#[verifier::spinoff_prover]
proof fn lemma_answer_passive_line(st: SipState, local_port: u16, is_udp: u8, passive: bool, ssrc: u32)
    ensures
        sdp_passive(answer_lines(st, local_port, is_udp, passive, ssrc)) == (is_udp == 0 && !passive),
{
    lemma_answer_literals();
    lemma_answer_shape(st, local_port, is_udp, passive, ssrc);
    let ls = answer_lines(st, local_port, is_udp, passive, ssrc);
    let last = ls.len() - 1;
    if is_udp == 0 && !passive {
        assert(ls[6] == setup_passive_line());
        lemma_trim_by_fixed(setup_passive_line(), CharClass::Whitespace);
        assert(trim(ls[6]) == "a=setup:passive"@);
    } else {
        assert forall|i: int| 0 <= i < ls.len() implies trim(#[trigger] ls[i])
            != "a=setup:passive"@ by {
            if i < 6 || i == last {
                lemma_trim_keeps_first(ls[i]);
                assert(setup_passive_line()[0] == 'a');
            } else if is_udp == 0 && i == 6 {
                assert(ls[i] == setup_active_line());
                lemma_trim_by_fixed(setup_active_line(), CharClass::Whitespace);
            } else if is_udp == 0 && i == 7 {
                assert(ls[i] == sdp_conn());
                lemma_trim_by_fixed(sdp_conn(), CharClass::Whitespace);
            } else {
                assert(ls[i] == sdp_rtpmap());
                lemma_trim_by_fixed(sdp_rtpmap(), CharClass::Whitespace);
            }
        }
    }
}

/// The answer describes the media as set up: read back as an offer, it gives
/// the device's address, the media server's port, the SSRC and the transport,
/// and it declares the device passive exactly when the transport is TCP and
/// the peer did not take the passive side.
#[verifier::spinoff_prover]
pub proof fn law_answer_reads_back(st: SipState, local_port: u16, is_udp: u8, passive: bool, ssrc: u32)
    requires
        is_udp <= 1,
        st.public_ip@.len() > 0,
        forall|k: int| 0 <= k < st.public_ip@.len() ==> !is_ws(#[trigger] st.public_ip@[k]),
        forall|k: int|
            0 <= k < st.config.device_id@.len() ==> #[trigger] st.config.device_id@[k] != '\n',
    ensures
        sdp_spec(answer_sdp(st, local_port, is_udp, passive, ssrc)) matches Ok(o) && o == (
            st.public_ip@,
            local_port,
            ssrc,
            is_udp,
            false,
            is_udp == 0 && !passive,
        ),
{
    let ip = st.public_ip@;
    assert forall|k: int| 0 <= k < ip.len() implies #[trigger] ip[k] != '\n' by {
        assert(!is_ws(ip[k]));
    }
    lemma_answer_lines(st, local_port, is_udp, passive, ssrc);
    lemma_answer_literals();
    lemma_answer_shape(st, local_port, is_udp, passive, ssrc);
    let ls = answer_lines(st, local_port, is_udp, passive, ssrc);
    lemma_answer_line_places(ls, is_udp, passive);
    lemma_answer_address_words(ip);
    lemma_answer_media_words(local_port, is_udp);
    lemma_answer_ssrc_text(ssrc);
    lemma_answer_passive_line(st, local_port, is_udp, passive, ssrc);
    law_numeral_round_trip(local_port as nat);
    law_numeral_round_trip(ssrc as nat);
    assert(sdp_udp().len() != sdp_tcp().len());
    assert(sdp_ssrc(ls) == ssrc);
}

/// The media server is asked for the offer's transport in both roles: the
/// start URL, whether the device sends to the peer or waits for it, carries
/// `&is_udp=` with the call's own transport flag, and names the call's SSRC.
pub proof fn law_start_url_carries_offer(st: SipState, call: InviteCall)
    ensures
        contains(start_url(st, call_view(call)), "&is_udp="@ + dec(call.is_udp as nat)),
        contains(start_url(st, call_view(call)), "&ssrc="@ + dec(call.ssrc as nat)),
{
    let c = call_view(call);
    let t = "&is_udp="@ + dec(call.is_udp as nat);
    let q = "&ssrc="@ + dec(call.ssrc as nat);
    if c.5 {
        let a = st.zlm@.0 + "/index/api/startSendRtp?secret="@ + st.zlm@.1 + "&vhost="@
            + default_vhost() + "&app="@ + st.fixed_app@ + "&stream="@ + st.fixed_stream_name@;
        let mid = "&dst_url="@ + c.1 + "&dst_port="@ + dec(c.2 as nat);
        let tail = opt_param("src_port"@, None) + opt_param("pt"@, None) + opt_param(
            "only_track"@,
            None,
        );
        assert(start_url(st, c) =~= (a + q + mid) + t + tail);
        assert(start_url(st, c) =~= a + q + (mid + t + tail));
        lemma_contains_middle(a + q + mid, t, tail);
        lemma_contains_middle(a, q, mid + t + tail);
    } else {
        let a = st.zlm@.0 + "/index/api/startSendRtpPassive?secret="@ + st.zlm@.1 + "&vhost="@
            + default_vhost() + "&app="@ + st.fixed_app@ + "&stream="@ + st.fixed_stream_name@;
        let tail = opt_param("only_track"@, None) + Seq::<char>::empty();
        assert(start_url(st, c) =~= (a + q) + t + tail);
        assert(start_url(st, c) =~= a + q + (t + tail));
        lemma_contains_middle(a + q, t, tail);
        lemma_contains_middle(a, q, t + tail);
    }
}

} // verus!
