//! The protocol state of one simulated device, and how it answers what the
//! upstream server sends.
use vstd::prelude::*;
use vstd::utf8::encode_utf8;
use crate::codec::{hex_lower, is_hex_lower_digit, is_uuid_v4_text, new_uuid_string};
use crate::error::{Fault, SipError};
use crate::num::{dec, push_dec};
use crate::sip::config::SipConfig;
use crate::sip::register::{message_packet, register_outcome, text_result_view};
use crate::sip::utils::{
    close_tag, is_2022, lemma_xml_text_clean, lemma_xml_text_layout, open_tag, extract_xml_text, first_line_spec, lemma_header_line, lemma_header_of_clean,
    lemma_no_cr, lemma_no_crlf_concat, lemma_not_header_line, lemma_split_line,
    lemma_nonempty_lines_all, lemma_nonempty_lines_concat, no_crlf, nonempty_lines, crlf,
    first_header_from, gb_ver, gb_ver_spec, get_header, get_header_by,
    header_lines_spec, parse_sip_lines, views, xml_header, xml_header_spec,
    xml_text_spec,
};
use crate::text::{
    lemma_starts_differ, lemma_contains_middle, lemma_find_from_first, matches_at, ascii_lower,
    is_trimmed, is_ws, find_from, lemma_find_from, lemma_trim_by_len, trim, trim_by, CharClass,
    chars_of, contains, contains_exec, eq_ignore_ascii_case, eq_ignore_ascii_case_exec, split,
    lemma_split_piece_len, split_exec, starts_with, starts_with_exec, str_eq,
};
use crate::zlm_client::ZlmClient;

verus! {

/// The state of one device.
pub struct SipState {
    /// The tag of the device's side of its dialogs.
    pub local_tag: String,
    /// The Call-ID of the device's REGISTER and MESSAGE requests.
    pub call_id_base: String,
    /// The next CSeq number.
    pub cseq: u32,
    /// The latest challenge (`WWW-Authenticate` or `Proxy-Authenticate` value).
    pub nonce: Option<String>,
    pub config: SipConfig,
    pub zlm: ZlmClient,
    /// `2016` or `2022`: the edition of GB/T 28181 the peer speaks.
    pub peer_version: String,
    /// The address written into Contact headers and session descriptions.
    pub public_ip: String,
    /// The upstream server's identifier.
    pub upper_server_id: String,
    /// The registration lifetime last asked for, in seconds.
    pub registered_expires: u64,
    /// The application of the stream that every device serves.
    pub fixed_app: String,
    /// The name of the stream that every device serves.
    pub fixed_stream_name: String,
    /// Seconds between keepalives.
    pub heartbeat_interval: u64,
    /// The registration lifetime to ask for, in seconds.
    pub register_expires: u32,
    pub channel_id: String,
}

/// The device's transport is TCP (in any letter case).
pub open spec fn uses_tcp(st: SipState) -> bool {
    eq_ignore_ascii_case(st.config.transport@, "TCP"@)
}

/// The transport named in Via headers.
pub open spec fn via_transport_spec(st: SipState) -> Seq<char> {
    if uses_tcp(st) {
        "TCP"@
    } else {
        "UDP"@
    }
}

/// The upstream identifier a configuration gives: the server's, else the device's own.
pub open spec fn upper_id_of(config: SipConfig) -> Seq<char> {
    match config.server_id {
        Some(id) => id@,
        None => config.device_id@,
    }
}

impl SipState {
    /// A device that has sent nothing yet: CSeq 1, no challenge, peer version
    /// 2016, and fresh random identifiers for its tag and Call-ID.
    pub fn new(
        config: SipConfig,
        zlm: ZlmClient,
        fixed_app: String,
        fixed_stream_name: String,
        public_ip: String,
        heartbeat_interval: u64,
        register_expires: u32,
    ) -> (r: SipState)
        ensures
            is_uuid_v4_text(r.local_tag@),
            is_uuid_v4_text(r.call_id_base@),
            r.cseq == 1,
            r.nonce is None,
            r.config == config,
            r.zlm == zlm,
            r.peer_version@ == "2016"@,
            r.public_ip == public_ip,
            r.upper_server_id@ == upper_id_of(config),
            r.registered_expires == register_expires as u64,
            r.fixed_app == fixed_app,
            r.fixed_stream_name == fixed_stream_name,
            r.heartbeat_interval == heartbeat_interval,
            r.register_expires == register_expires,
            r.channel_id@ == config.channel_id@,
    {
        let channel_id = config.channel_id.clone();
        let upper_server_id = match &config.server_id {
            Some(id) => id.clone(),
            None => config.device_id.clone(),
        };
        SipState {
            local_tag: new_uuid_string(),
            call_id_base: new_uuid_string(),
            cseq: 1,
            nonce: None,
            config,
            zlm,
            peer_version: String::from_str("2016"),
            public_ip,
            upper_server_id,
            registered_expires: register_expires as u64,
            fixed_app,
            fixed_stream_name,
            heartbeat_interval,
            register_expires,
            channel_id,
        }
    }

    /// `TCP` when the configured transport is TCP in any letter case, else `UDP`.
    pub fn via_transport(&self) -> (r: &'static str)
        ensures
            r@ == via_transport_spec(*self),
    {
        let t = chars_of(self.config.transport.as_str());
        let tcp = chars_of("TCP");
        if eq_ignore_ascii_case_exec(t.as_slice(), tcp.as_slice()) {
            "TCP"
        } else {
            "UDP"
        }
    }
}

/// The value of a named header, if present.
pub open spec fn header_of(hs: Seq<Seq<char>>, name: Seq<char>) -> Option<Seq<char>> {
    get_header_by(hs, name, false)
}

/// The view of an optional string slice.
pub open spec fn opt_str(o: Option<&str>) -> Option<Seq<char>> {
    match o {
        Some(s) => Some(s@),
        None => None,
    }
}

/// The response with status `code` to a request with headers `hs`: it echoes
/// the request's Via, From, To (with `to_tag` added), Call-ID and CSeq, and
/// carries `sdp` when given. A missing echoed header is an error.
pub open spec fn reply_spec(
    version: Seq<char>,
    code: Seq<char>,
    hs: Seq<Seq<char>>,
    sdp: Option<Seq<char>>,
    to_tag: Option<Seq<char>>,
) -> Result<Seq<char>, Fault> {
    match header_of(hs, "Via"@) {
        None => Err(Fault::MissingHeader("Via"@)),
        Some(via) => match header_of(hs, "From"@) {
            None => Err(Fault::MissingHeader("From"@)),
            Some(from) => match header_of(hs, "To"@) {
                None => Err(Fault::MissingHeader("To"@)),
                Some(to) => match header_of(hs, "Call-ID"@) {
                    None => Err(Fault::MissingHeader("Call-ID"@)),
                    Some(call_id) => match header_of(hs, "CSeq"@) {
                        None => Err(Fault::MissingHeader("CSeq"@)),
                        Some(cseq) => Ok(
                            "SIP/2.0 "@ + code + "\r\n"@ + "Via: "@ + via + "\r\n"@ + "From: "@
                                + from + "\r\n"@ + "To: "@ + to + (match to_tag {
                                Some(t) => ";tag="@ + t,
                                None => Seq::<char>::empty(),
                            }) + "\r\n"@ + "Call-ID: "@ + call_id + "\r\n"@ + "CSeq: "@ + cseq
                                + "\r\n"@ + "X-GB-Ver: "@ + gb_ver_spec(version) + "\r\n"@
                                + "User-Agent: GBHub-Stress\r\n"@ + (match sdp {
                                Some(b) => "Content-Type: application/sdp\r\nContent-Length: "@
                                    + dec(encode_utf8(b).len()) + "\r\n\r\n"@ + b,
                                None => "Content-Length: 0\r\n\r\n"@,
                            }),
                        ),
                    },
                },
            },
        },
    }
}

/// The catalog response body: one channel, named after its identifier, under
/// the device the query names (or this device), echoing the query's SN (or 1).
pub open spec fn catalog_xml(st: SipState, body: Seq<char>) -> Seq<char> {
    let sn = match xml_text_spec(body, "SN"@) {
        Some(t) => t,
        None => "1"@,
    };
    let device_id = match xml_text_spec(body, "DeviceID"@) {
        Some(t) => t,
        None => st.config.device_id@,
    };
    xml_header_spec(st.peer_version@) + "<Response>\r\n<CmdType>Catalog</CmdType>\r\n<SN>"@ + sn
        + "</SN>\r\n<DeviceID>"@ + device_id
        + "</DeviceID>\r\n<SumNum>1</SumNum>\r\n<DeviceList Num=\"1\">\r\n<Item>\r\n<DeviceID>"@
        + st.channel_id@ + "</DeviceID>\r\n<Name>"@ + "Channel-"@ + st.channel_id@
        + "</Name>\r\n<Parental>0</Parental>\r\n<ParentID>"@ + device_id
        + "</ParentID>\r\n<Status>ON</Status>\r\n</Item>\r\n</DeviceList>\r\n</Response>\r\n"@
}

/// The lengths of the device's own texts stay far below the encoders' limits.
pub open spec fn sizes_ok(st: SipState) -> bool {
    &&& st.config.device_id@.len() < 0x0040_0000
    &&& st.channel_id@.len() < 0x0040_0000
}

impl SipState {
    /// The response with status `code` to a request with the given headers.
    pub fn reply_response(
        &self,
        code: &str,
        headers: &[String],
        sdp: Option<&str>,
        to_tag: Option<&str>,
    ) -> (r: Result<String, SipError>)
        ensures
            text_result_view(r) == reply_spec(
                self.peer_version@,
                code@,
                views(headers@),
                opt_str(sdp),
                opt_str(to_tag),
            ),
    {
        let via = match get_header(headers, "Via") {
            Some(v) => v,
            None => {
                return Err(SipError::MissingHeader(String::from_str("Via")));
            },
        };
        let from = match get_header(headers, "From") {
            Some(v) => v,
            None => {
                return Err(SipError::MissingHeader(String::from_str("From")));
            },
        };
        let to = match get_header(headers, "To") {
            Some(v) => v,
            None => {
                return Err(SipError::MissingHeader(String::from_str("To")));
            },
        };
        let call_id = match get_header(headers, "Call-ID") {
            Some(v) => v,
            None => {
                return Err(SipError::MissingHeader(String::from_str("Call-ID")));
            },
        };
        let cseq = match get_header(headers, "CSeq") {
            Some(v) => v,
            None => {
                return Err(SipError::MissingHeader(String::from_str("CSeq")));
            },
        };
        let mut msg = String::from_str("SIP/2.0 ");
        msg.append(code);
        msg.append("\r\n");
        msg.append("Via: ");
        msg.append(via);
        msg.append("\r\n");
        msg.append("From: ");
        msg.append(from);
        msg.append("\r\n");
        msg.append("To: ");
        msg.append(to);
        let ghost m0 = msg@;
        match to_tag {
            Some(t) => {
                msg.append(";tag=");
                msg.append(t);
                assert(msg@ =~= m0 + (";tag="@ + t@));
            },
            None => {
                assert(msg@ =~= m0 + Seq::<char>::empty());
            },
        }
        msg.append("\r\n");
        msg.append("Call-ID: ");
        msg.append(call_id);
        msg.append("\r\n");
        msg.append("CSeq: ");
        msg.append(cseq);
        msg.append("\r\n");
        msg.append("X-GB-Ver: ");
        msg.append(gb_ver(self.peer_version.as_str()));
        msg.append("\r\n");
        msg.append("User-Agent: GBHub-Stress\r\n");
        let ghost m1 = msg@;
        match sdp {
            Some(b) => {
                msg.append("Content-Type: application/sdp\r\nContent-Length: ");
                let n: usize = b.as_bytes().len();
                push_dec(&mut msg, n as u64);
                msg.append("\r\n\r\n");
                msg.append(b);
                assert(msg@ =~= m1 + ("Content-Type: application/sdp\r\nContent-Length: "@ + dec(
                    encode_utf8(b@).len(),
                ) + "\r\n\r\n"@ + b@));
            },
            None => {
                msg.append("Content-Length: 0\r\n\r\n");
            },
        }
        Ok(msg)
    }

    /// The catalog response body for a catalog query body.
    pub fn catalog_body(&self, body: &str) -> (r: String)
        ensures
            r@ == catalog_xml(*self, body@),
    {
        let sn: &str = match extract_xml_text(body, "SN") {
            Some(t) => t,
            None => "1",
        };
        let device_id: &str = match extract_xml_text(body, "DeviceID") {
            Some(t) => t,
            None => self.config.device_id.as_str(),
        };
        let mut x = xml_header(self.peer_version.as_str());
        x.append("<Response>\r\n<CmdType>Catalog</CmdType>\r\n<SN>");
        x.append(sn);
        x.append("</SN>\r\n<DeviceID>");
        x.append(device_id);
        x.append(
            "</DeviceID>\r\n<SumNum>1</SumNum>\r\n<DeviceList Num=\"1\">\r\n<Item>\r\n<DeviceID>",
        );
        x.append(self.channel_id.as_str());
        x.append("</DeviceID>\r\n<Name>");
        x.append("Channel-");
        x.append(self.channel_id.as_str());
        x.append("</Name>\r\n<Parental>0</Parental>\r\n<ParentID>");
        x.append(device_id);
        x.append(
            "</ParentID>\r\n<Status>ON</Status>\r\n</Item>\r\n</DeviceList>\r\n</Response>\r\n",
        );
        x
    }

    /// Takes the next CSeq number and produces the MESSAGE answering a catalog query.
    pub fn handle_catalog(&mut self, body: &str) -> (r: Vec<u8>)
        requires
            old(self).cseq < u32::MAX,
            sizes_ok(*old(self)),
            body@.len() < 0x0040_0000,
        ensures
            *final(self) == (SipState { cseq: (old(self).cseq + 1) as u32, ..*old(self) }),
            exists|b: Seq<u8>|
                b.len() == 4 && r@ == message_packet(
                    *old(self),
                    catalog_xml(*old(self), body@),
                    "z9hG4bK-"@ + #[trigger] hex_lower(b),
                ),
    {
        let xml = self.catalog_body(body);
        proof {
            lemma_catalog_len(*self, body@);
        }
        self.send_message_to(xml.as_str())
    }
}

/// A catalog body stays within the encoders' limits.
proof fn lemma_catalog_len(st: SipState, body: Seq<char>)
    requires
        sizes_ok(st),
        body.len() < 0x0040_0000,
    ensures
        catalog_xml(st, body).len() < 0x0400_0000,
{
    reveal_strlit("1");
    reveal_strlit("<?xml version=\"1.0\" encoding=\"GB18030\"?>\r\n");
    reveal_strlit("<?xml version=\"1.0\" encoding=\"GB2312\"?>\r\n");
    reveal_strlit("<Response>\r\n<CmdType>Catalog</CmdType>\r\n<SN>");
    reveal_strlit("</SN>\r\n<DeviceID>");
    reveal_strlit("</DeviceID>\r\n<SumNum>1</SumNum>\r\n<DeviceList Num=\"1\">\r\n<Item>\r\n<DeviceID>");
    reveal_strlit("</DeviceID>\r\n<Name>");
    reveal_strlit("Channel-");
    reveal_strlit("</Name>\r\n<Parental>0</Parental>\r\n<ParentID>");
    reveal_strlit("</ParentID>\r\n<Status>ON</Status>\r\n</Item>\r\n</DeviceList>\r\n</Response>\r\n");
    lemma_xml_text_len(body, "SN"@);
    lemma_xml_text_len(body, "DeviceID"@);
}

/// Extracted element text is no longer than the document.
pub proof fn lemma_xml_text_len(xml: Seq<char>, tag: Seq<char>)
    ensures
        xml_text_spec(xml, tag) matches Some(t) ==> t.len() <= xml.len(),
{
    let st = seq!['<'] + tag + seq!['>'];
    let et = seq!['<', '/'] + tag + seq!['>'];
    lemma_find_from(xml, st, 0);
    match find_from(xml, st, 0) {
        Some(i) => {
            let s = i + st.len();
            lemma_find_from(xml, et, s);
            match find_from(xml, et, s) {
                Some(j) => {
                    let raw = xml.subrange(s, j);
                    lemma_trim_by_len(raw, CharClass::Whitespace);
                    lemma_trim_by_len(trim(raw), CharClass::Quotes);
                    lemma_trim_by_len(trim_by(trim(raw), CharClass::Quotes), CharClass::Whitespace);
                },
                None => {},
            }
        },
        None => {},
    }
}

/// What the device does with a datagram, for the caller to carry out.
pub enum Incoming {
    /// Nothing to send.
    Ignore,
    /// Send this text back to the sender.
    Send(String),
    /// Send this request to the upstream server.
    SendToServer(String),
    /// Send these bytes.
    SendBytes(Vec<u8>),
    /// Run the INVITE exchange for this request.
    Invite { headers: Vec<String>, body: String },
    /// Run the BYE exchange for this request.
    Bye { headers: Vec<String> },
}

/// What a datagram calls for, decided from the state and the text alone.
pub enum Plan {
    /// Nothing.
    Ignore,
    /// Store this challenge and register again with credentials.
    Reauth(Seq<char>),
    /// An INVITE with this body.
    Invite(Seq<char>),
    /// A BYE.
    Bye,
    /// A response with this status.
    Reply(Seq<char>),
    /// A catalog query with this body.
    Catalog(Seq<char>),
}

/// The blank line that ends a SIP header.
pub open spec fn crlf2() -> Seq<char> {
    seq!['\r', '\n', '\r', '\n']
}

/// The body of a message: the text after the first blank line, up to a
/// second blank line; empty when there is none.
pub open spec fn body_of(data: Seq<char>) -> Seq<char> {
    let p = split(data, crlf2());
    if p.len() > 1 {
        p[1]
    } else {
        seq![]
    }
}

/// The datagram comes from the upstream server's address.
pub open spec fn from_upstream(st: SipState, src_ip: Seq<char>) -> bool {
    src_ip == st.config.sip_server_ip@
}

/// What a datagram from `src_ip` calls for. Datagrams from elsewhere are
/// ignored; responses matter only as 401/407 challenges; requests are
/// dispatched on their method.
pub open spec fn incoming_plan(st: SipState, src_ip: Seq<char>, data: Seq<char>) -> Plan {
    let first = first_line_spec(data);
    let hs = header_lines_spec(data);
    if !from_upstream(st, src_ip) {
        Plan::Ignore
    } else if starts_with(first, "SIP/2.0"@) {
        if contains(first, "401 Unauthorized"@) || contains(
            first,
            "407 Proxy Authentication Required"@,
        ) {
            match header_of(hs, "WWW-Authenticate"@) {
                Some(w) => Plan::Reauth(w),
                None => match header_of(hs, "Proxy-Authenticate"@) {
                    Some(w) => Plan::Reauth(w),
                    None => Plan::Ignore,
                },
            }
        } else {
            Plan::Ignore
        }
    } else if starts_with(first, "INVITE"@) {
        Plan::Invite(body_of(data))
    } else if starts_with(first, "BYE"@) {
        Plan::Bye
    } else if starts_with(first, "ACK"@) {
        Plan::Ignore
    } else if starts_with(first, "OPTIONS"@) || starts_with(first, "CANCEL"@) {
        Plan::Reply("200 OK"@)
    } else if starts_with(first, "MESSAGE"@) {
        if contains(body_of(data), "<CmdType>Catalog</CmdType>"@) {
            Plan::Catalog(body_of(data))
        } else {
            Plan::Reply("200 OK"@)
        }
    } else {
        Plan::Reply("501 Not Implemented"@)
    }
}

/// The peer version after a datagram: a request's `X-GB-Ver` selects 2022
/// when it mentions 3.0 and 2016 otherwise; anything else keeps the version.
pub open spec fn version_after(st: SipState, src_ip: Seq<char>, data: Seq<char>) -> Seq<char> {
    if !from_upstream(st, src_ip) || starts_with(first_line_spec(data), "SIP/2.0"@) {
        st.peer_version@
    } else {
        match header_of(header_lines_spec(data), "X-GB-Ver"@) {
            Some(v) => if contains(v, "3.0"@) {
                "2022"@
            } else {
                "2016"@
            },
            None => st.peer_version@,
        }
    }
}

/// The fields that no message changes are equal.
pub open spec fn same_identity(a: SipState, b: SipState) -> bool {
    &&& a.local_tag == b.local_tag
    &&& a.call_id_base == b.call_id_base
    &&& a.config == b.config
    &&& a.zlm == b.zlm
    &&& a.public_ip == b.public_ip
    &&& a.upper_server_id == b.upper_server_id
    &&& a.registered_expires == b.registered_expires
    &&& a.fixed_app == b.fixed_app
    &&& a.fixed_stream_name == b.fixed_stream_name
    &&& a.heartbeat_interval == b.heartbeat_interval
    &&& a.register_expires == b.register_expires
    &&& a.channel_id == b.channel_id
}

/// The branch text for four random bytes.
pub open spec fn branch_of(b: Seq<u8>) -> Seq<char> {
    "z9hG4bK-"@ + hex_lower(b)
}

impl SipState {
    /// Handles one datagram from `src_ip`: stores a challenge or the peer's
    /// version as it calls for, and says what to send or which exchange to run.
    pub fn process_incoming(&mut self, src_ip: &str, data: &str) -> (r: Result<Incoming, SipError>)
        requires
            old(self).cseq < u32::MAX,
            sizes_ok(*old(self)),
            data@.len() < 0x0040_0000,
        ensures
            same_identity(*final(self), *old(self)),
            final(self).peer_version@ == version_after(*old(self), src_ip@, data@),
            match incoming_plan(*old(self), src_ip@, data@) {
                Plan::Reauth(w) => final(self).nonce matches Some(n) && n@ == w,
                _ => final(self).nonce == old(self).nonce,
            },
            final(self).cseq == match incoming_plan(*old(self), src_ip@, data@) {
                Plan::Reauth(_) => (old(self).cseq + 1) as u32,
                Plan::Catalog(_) => (old(self).cseq + 1) as u32,
                _ => old(self).cseq,
            },
            ({
                let mid = SipState { cseq: old(self).cseq, ..*final(self) };
                match incoming_plan(*old(self), src_ip@, data@) {
                    Plan::Ignore => r matches Ok(Incoming::Ignore),
                    Plan::Reauth(_) => exists|b: Seq<u8>, c: Seq<u8>|
                        b.len() == 4 && c.len() == 4 && match register_outcome(
                            mid,
                            old(self).config.sip_server@,
                            old(self).register_expires,
                            true,
                            "z9hG4bK-"@ + #[trigger] hex_lower(b),
                            #[trigger] hex_lower(c),
                        ) {
                            Ok(m) => (r matches Ok(Incoming::SendToServer(x)) && x@ == m),
                            Err(_) => r matches Ok(Incoming::Ignore),
                        },
                    Plan::Invite(body) => r matches Ok(Incoming::Invite { headers, body: b })
                        && views(headers@) == header_lines_spec(data@) && b@ == body,
                    Plan::Bye => r matches Ok(Incoming::Bye { headers }) && views(headers@)
                        == header_lines_spec(data@),
                    Plan::Reply(code) => match reply_spec(
                        final(self).peer_version@,
                        code,
                        header_lines_spec(data@),
                        None,
                        None,
                    ) {
                        Ok(m) => r matches Ok(Incoming::Send(x)) && x@ == m,
                        Err(e) => r matches Err(x) && x@ == e,
                    },
                    Plan::Catalog(body) => exists|b: Seq<u8>|
                        b.len() == 4 && (r matches Ok(Incoming::SendBytes(p)) && p@ == message_packet(
                            mid,
                            catalog_xml(mid, body),
                            "z9hG4bK-"@ + #[trigger] hex_lower(b),
                        )),
                }
            }),
    {
        if !str_eq(src_ip, self.config.sip_server_ip.as_str()) {
            return Ok(Incoming::Ignore);
        }
        let (first, headers) = match parse_sip_lines(data) {
            Ok(v) => v,
            Err(_) => {
                return Ok(Incoming::Ignore);
            },
        };
        let fc = chars_of(first.as_str());
        let sip20 = chars_of("SIP/2.0");
        if starts_with_exec(fc.as_slice(), sip20.as_slice()) {
            let c401 = chars_of("401 Unauthorized");
            let c407 = chars_of("407 Proxy Authentication Required");
            if contains_exec(fc.as_slice(), c401.as_slice()) || contains_exec(
                fc.as_slice(),
                c407.as_slice(),
            ) {
                let w = match get_header(headers.as_slice(), "WWW-Authenticate") {
                    Some(w) => Some(w),
                    None => get_header(headers.as_slice(), "Proxy-Authenticate"),
                };
                if let Some(w) = w {
                    self.nonce = Some(w.to_owned());
                    let server = self.config.sip_server.clone();
                    let expires = self.register_expires;
                    return match self.send_register_to(server.as_str(), expires, true) {
                        Ok(m) => Ok(Incoming::SendToServer(m)),
                        Err(_) => Ok(Incoming::Ignore),
                    };
                }
            }
            return Ok(Incoming::Ignore);
        }
        if let Some(ver) = get_header(headers.as_slice(), "X-GB-Ver") {
            let vc = chars_of(ver);
            let v3 = chars_of("3.0");
            self.peer_version = if contains_exec(vc.as_slice(), v3.as_slice()) {
                String::from_str("2022")
            } else {
                String::from_str("2016")
            };
        }
        let d = chars_of(data);
        let sep: Vec<char> = vec!['\r', '\n', '\r', '\n'];
        assert(sep@ =~= crlf2());
        let pieces = split_exec(d.as_slice(), sep.as_slice());
        let ghost pv = pieces@.map_values(|v: Vec<char>| v@);
        let body: String = if pieces.len() > 1 {
            assert(pv[1] == pieces@[1]@);
            assert(pieces@[1]@.subrange(0, pieces@[1]@.len() as int) =~= pieces@[1]@);
            crate::text::string_of(pieces[1].as_slice(), 0, pieces[1].len())
        } else {
            String::new()
        };
        assert(body@ == body_of(data@));
        if starts_with_exec(fc.as_slice(), chars_of("INVITE").as_slice()) {
            return Ok(Incoming::Invite { headers, body });
        }
        if starts_with_exec(fc.as_slice(), chars_of("BYE").as_slice()) {
            return Ok(Incoming::Bye { headers });
        }
        if starts_with_exec(fc.as_slice(), chars_of("ACK").as_slice()) {
            return Ok(Incoming::Ignore);
        }
        if starts_with_exec(fc.as_slice(), chars_of("OPTIONS").as_slice()) || starts_with_exec(
            fc.as_slice(),
            chars_of("CANCEL").as_slice(),
        ) {
            return match self.reply_response("200 OK", headers.as_slice(), None, None) {
                Ok(m) => Ok(Incoming::Send(m)),
                Err(e) => Err(e),
            };
        }
        if starts_with_exec(fc.as_slice(), chars_of("MESSAGE").as_slice()) {
            let bc = chars_of(body.as_str());
            let cat = chars_of("<CmdType>Catalog</CmdType>");
            if contains_exec(bc.as_slice(), cat.as_slice()) {
                proof {
                    lemma_split_piece_len(d@, crlf2(), 0);
                }
                let p = self.handle_catalog(body.as_str());
                return Ok(Incoming::SendBytes(p));
            }
            return match self.reply_response("200 OK", headers.as_slice(), None, None) {
                Ok(m) => Ok(Incoming::Send(m)),
                Err(e) => Err(e),
            };
        }
        match self.reply_response("501 Not Implemented", headers.as_slice(), None, None) {
            Ok(m) => Ok(Incoming::Send(m)),
            Err(e) => Err(e),
        }
    }
}


/// Datagrams that do not come from the upstream server change nothing and
/// are answered with nothing.
pub proof fn law_foreign_datagrams_ignored(st: SipState, src_ip: Seq<char>, data: Seq<char>)
    requires
        !from_upstream(st, src_ip),
    ensures
        incoming_plan(st, src_ip, data) == Plan::Ignore,
        version_after(st, src_ip, data) == st.peer_version@,
{
}

/// Version negotiation: a request from the upstream server whose `X-GB-Ver`
/// mentions 3.0 makes the device speak the 2022 edition from then on, so its
/// replies carry `X-GB-Ver: 3.0` and its bodies are declared GB18030.
pub proof fn law_version_negotiation(st: SipState, src_ip: Seq<char>, data: Seq<char>)
    requires
        from_upstream(st, src_ip),
        !starts_with(first_line_spec(data), "SIP/2.0"@),
        header_of(header_lines_spec(data), "X-GB-Ver"@) matches Some(v) && contains(v, "3.0"@),
    ensures
        version_after(st, src_ip, data) == "2022"@,
        gb_ver_spec(version_after(st, src_ip, data)) == "3.0"@,
        xml_header_spec(version_after(st, src_ip, data))
            == "<?xml version=\"1.0\" encoding=\"GB18030\"?>\r\n"@,
{
}

/// The text a tag adds to the `To` value of a reply.
pub open spec fn tag_part(to_tag: Option<Seq<char>>) -> Seq<char> {
    match to_tag {
        Some(t) => ";tag="@ + t,
        None => Seq::<char>::empty(),
    }
}

/// Regrouping the reply text line by line.
#[verifier::spinoff_prover]
#[verifier::rlimit(50)]
proof fn lemma_reply_regroup(
    p0: Seq<char>,
    code: Seq<char>,
    c: Seq<char>,
    p1: Seq<char>,
    via: Seq<char>,
    p2: Seq<char>,
    from: Seq<char>,
    p3: Seq<char>,
    to: Seq<char>,
    tp: Seq<char>,
    p4: Seq<char>,
    cid: Seq<char>,
    p5: Seq<char>,
    cseq: Seq<char>,
    p6: Seq<char>,
    g: Seq<char>,
    ua: Seq<char>,
    tail: Seq<char>,
)
    ensures
        p0 + code + c + p1 + via + c + p2 + from + c + p3 + to + tp + c + p4 + cid + c + p5 + cseq
            + c + p6 + g + c + ua + tail == (p0 + code) + c + ((p1 + via) + c + ((p2 + from) + c
            + ((p3 + (to + tp)) + c + ((p4 + cid) + c + ((p5 + cseq) + c + ((p6 + g) + c + (ua
            + tail))))))),
{
    let lhs = p0 + code + c + p1 + via + c + p2 + from + c + p3 + to + tp + c + p4 + cid + c + p5
        + cseq + c + p6 + g + c + ua + tail;
    let rhs = (p0 + code) + c + ((p1 + via) + c + ((p2 + from) + c + ((p3 + (to + tp)) + c + ((p4
        + cid) + c + ((p5 + cseq) + c + ((p6 + g) + c + (ua + tail)))))));
    assert(lhs =~= rhs);
}

/// The reply text grouped line by line.
spec fn reply_layout(
    code: Seq<char>,
    via: Seq<char>,
    from: Seq<char>,
    tw: Seq<char>,
    cid: Seq<char>,
    cseq: Seq<char>,
    g: Seq<char>,
    tail: Seq<char>,
) -> Seq<char> {
    ("SIP/2.0 "@ + code) + "\r\n"@ + (("Via: "@ + via) + "\r\n"@ + (("From: "@ + from) + "\r\n"@ + ((
    "To: "@ + tw) + "\r\n"@ + (("Call-ID: "@ + cid) + "\r\n"@ + (("CSeq: "@ + cseq) + "\r\n"@ + ((
    "X-GB-Ver: "@ + g) + "\r\n"@ + ("User-Agent: GBHub-Stress\r\n"@ + tail)))))))
}

/// The `User-Agent` line of every message the device sends.
spec fn ua_line() -> Seq<char> {
    seq!['U', 's', 'e', 'r', '-', 'A', 'g', 'e', 'n', 't', ':', ' ', 'G', 'B', 'H', 'u', 'b', '-', 'S', 't', 'r', 'e', 's', 's']
}

/// The literal pieces of a reply, character by character.
#[verifier::spinoff_prover]
proof fn lemma_reply_literals()
    ensures
        "SIP/2.0 "@ == seq!['S', 'I', 'P', '/', '2', '.', '0', ' '],
        "\r\n"@ == crlf(),
        "Via: "@ == seq!['V', 'i', 'a'] + seq![':', ' '],
        "From: "@ == seq!['F', 'r', 'o', 'm'] + seq![':', ' '],
        "To: "@ == seq!['T', 'o'] + seq![':', ' '],
        "Call-ID: "@ == seq!['C', 'a', 'l', 'l', '-', 'I', 'D'] + seq![':', ' '],
        "CSeq: "@ == seq!['C', 'S', 'e', 'q'] + seq![':', ' '],
        "X-GB-Ver: "@ == seq!['X', '-', 'G', 'B', '-', 'V', 'e', 'r'] + seq![':', ' '],
        "3.0"@ == seq!['3', '.', '0'],
        "2.0"@ == seq!['2', '.', '0'],
        "User-Agent: GBHub-Stress\r\n"@ == ua_line() + crlf(),
{
    reveal_strlit("SIP/2.0 ");
    reveal_strlit("\r\n");
    reveal_strlit("Via: ");
    reveal_strlit("From: ");
    reveal_strlit("To: ");
    reveal_strlit("Call-ID: ");
    reveal_strlit("CSeq: ");
    reveal_strlit("X-GB-Ver: ");
    reveal_strlit("3.0");
    reveal_strlit("2.0");
    reveal_strlit("User-Agent: GBHub-Stress\r\n");
    assert("SIP/2.0 "@ =~= seq!['S', 'I', 'P', '/', '2', '.', '0', ' ']);
    assert("\r\n"@ =~= crlf());
    assert("Via: "@ =~= seq!['V', 'i', 'a'] + seq![':', ' ']);
    assert("From: "@ =~= seq!['F', 'r', 'o', 'm'] + seq![':', ' ']);
    assert("To: "@ =~= seq!['T', 'o'] + seq![':', ' ']);
    assert("Call-ID: "@ =~= seq!['C', 'a', 'l', 'l', '-', 'I', 'D'] + seq![':', ' ']);
    assert("CSeq: "@ =~= seq!['C', 'S', 'e', 'q'] + seq![':', ' ']);
    assert("X-GB-Ver: "@ =~= seq!['X', '-', 'G', 'B', '-', 'V', 'e', 'r'] + seq![':', ' ']);
    assert("3.0"@ =~= seq!['3', '.', '0']);
    assert("2.0"@ =~= seq!['2', '.', '0']);
    assert("User-Agent: GBHub-Stress\r\n"@ =~= ua_line() + crlf());
}

/// Eight lines without CRLF, each followed by CRLF, then a tail: the first
/// is the first line, and the other seven lead the header lines.
#[verifier::spinoff_prover]
proof fn lemma_split_layout(
    l0: Seq<char>,
    l1: Seq<char>,
    l2: Seq<char>,
    l3: Seq<char>,
    l4: Seq<char>,
    l5: Seq<char>,
    l6: Seq<char>,
    l7: Seq<char>,
    tail: Seq<char>,
)
    requires
        no_crlf(l0),
        no_crlf(l1) && l1.len() > 0,
        no_crlf(l2) && l2.len() > 0,
        no_crlf(l3) && l3.len() > 0,
        no_crlf(l4) && l4.len() > 0,
        no_crlf(l5) && l5.len() > 0,
        no_crlf(l6) && l6.len() > 0,
        no_crlf(l7) && l7.len() > 0,
    ensures
        ({
            let x0 = l0 + crlf() + (l1 + crlf() + (l2 + crlf() + (l3 + crlf() + (l4 + crlf() + (l5
                + crlf() + (l6 + crlf() + (l7 + crlf() + tail)))))));
            &&& first_line_spec(x0) == l0
            &&& header_lines_spec(x0) == seq![l1, l2, l3, l4, l5, l6, l7] + nonempty_lines(
                split(tail, crlf()),
            )
        }),
{
    let x7 = l7 + crlf() + tail;
    let x6 = l6 + crlf() + x7;
    let x5 = l5 + crlf() + x6;
    let x4 = l4 + crlf() + x5;
    let x3 = l3 + crlf() + x4;
    let x2 = l2 + crlf() + x3;
    let x1 = l1 + crlf() + x2;
    let x0 = l0 + crlf() + x1;
    lemma_split_line(l0, x1);
    lemma_split_line(l1, x2);
    lemma_split_line(l2, x3);
    lemma_split_line(l3, x4);
    lemma_split_line(l4, x5);
    lemma_split_line(l5, x6);
    lemma_split_line(l6, x7);
    lemma_split_line(l7, tail);
    let top = seq![l1, l2, l3, l4, l5, l6, l7];
    let rest = split(tail, crlf());
    assert(split(x0, crlf()) =~= seq![l0] + top + rest);
    assert(split(x0, crlf()).skip(1) =~= top + rest);
    lemma_nonempty_lines_concat(top, rest);
    lemma_nonempty_lines_all(top);
}

/// The first line and the first header lines of a reply laid out line by line.
#[verifier::spinoff_prover]
proof fn lemma_layout_lines(
    code: Seq<char>,
    via: Seq<char>,
    from: Seq<char>,
    tw: Seq<char>,
    cid: Seq<char>,
    cseq: Seq<char>,
    g: Seq<char>,
    tail: Seq<char>,
)
    requires
        no_crlf(code),
        no_crlf(via) && is_trimmed(via),
        no_crlf(from) && is_trimmed(from),
        no_crlf(tw) && is_trimmed(tw),
        no_crlf(cid) && is_trimmed(cid),
        no_crlf(cseq) && is_trimmed(cseq),
        g == "3.0"@ || g == "2.0"@,
    ensures
        ({
            let m = reply_layout(code, via, from, tw, cid, cseq, g, tail);
            let rs = header_lines_spec(m);
            &&& first_line_spec(m) == "SIP/2.0 "@ + code
            &&& rs.len() >= 5
            &&& rs[0] == "Via: "@ + via
            &&& rs[1] == "From: "@ + from
            &&& rs[2] == "To: "@ + tw
            &&& rs[3] == "Call-ID: "@ + cid
            &&& rs[4] == "CSeq: "@ + cseq
        }),
{
    lemma_reply_literals();
    let start = seq!['S', 'I', 'P', '/', '2', '.', '0', ' '];
    lemma_no_cr(start);
    lemma_no_crlf_concat(start, code);
    assert(is_trimmed(g) && no_crlf(g)) by {
        lemma_no_cr(g);
    }
    let cs = seq![':', ' '];
    let ua = seq!['G', 'B', 'H', 'u', 'b', '-', 'S', 't', 'r', 'e', 's', 's'];
    let n_ua = seq!['U', 's', 'e', 'r', '-', 'A', 'g', 'e', 'n', 't'];
    assert(ua_line() =~= n_ua + cs + ua);
    lemma_no_cr(ua);
    lemma_header_line(n_ua, ua);
    lemma_header_line(seq!['V', 'i', 'a'], via);
    lemma_header_line(seq!['F', 'r', 'o', 'm'], from);
    lemma_header_line(seq!['T', 'o'], tw);
    lemma_header_line(seq!['C', 'a', 'l', 'l', '-', 'I', 'D'], cid);
    lemma_header_line(seq!['C', 'S', 'e', 'q'], cseq);
    lemma_header_line(seq!['X', '-', 'G', 'B', '-', 'V', 'e', 'r'], g);
    let l0 = "SIP/2.0 "@ + code;
    let l1 = "Via: "@ + via;
    let l2 = "From: "@ + from;
    let l3 = "To: "@ + tw;
    let l4 = "Call-ID: "@ + cid;
    let l5 = "CSeq: "@ + cseq;
    let l6 = "X-GB-Ver: "@ + g;
    let l7 = ua_line();
    assert("User-Agent: GBHub-Stress\r\n"@ + tail =~= l7 + crlf() + tail);
    lemma_split_layout(l0, l1, l2, l3, l4, l5, l6, l7, tail);
}

/// Reading the echoed headers from the header lines of a reply.
#[verifier::spinoff_prover]
proof fn lemma_layout_reads(
    rs: Seq<Seq<char>>,
    via: Seq<char>,
    from: Seq<char>,
    tw: Seq<char>,
    cid: Seq<char>,
    cseq: Seq<char>,
)
    requires
        rs.len() >= 5,
        rs[0] == "Via: "@ + via,
        rs[1] == "From: "@ + from,
        rs[2] == "To: "@ + tw,
        rs[3] == "Call-ID: "@ + cid,
        rs[4] == "CSeq: "@ + cseq,
        is_trimmed(via),
        is_trimmed(from),
        is_trimmed(tw),
        is_trimmed(cid),
        is_trimmed(cseq),
    ensures
        get_header_by(rs, "Via"@, true) == Some(via),
        get_header_by(rs, "From"@, true) == Some(from),
        get_header_by(rs, "To"@, true) == Some(tw),
        get_header_by(rs, "Call-ID"@, true) == Some(cid),
        get_header_by(rs, "CSeq"@, true) == Some(cseq),
{
    reveal_strlit("Via: ");
    reveal_strlit("From: ");
    reveal_strlit("To: ");
    reveal_strlit("Call-ID: ");
    reveal_strlit("CSeq: ");
    reveal_strlit("Via");
    reveal_strlit("From");
    reveal_strlit("To");
    reveal_strlit("Call-ID");
    reveal_strlit("CSeq");
    let cs = seq![':', ' '];
    let n_via = seq!['V', 'i', 'a'];
    let n_from = seq!['F', 'r', 'o', 'm'];
    let n_to = seq!['T', 'o'];
    let n_cid = seq!['C', 'a', 'l', 'l', '-', 'I', 'D'];
    let n_cseq = seq!['C', 'S', 'e', 'q'];
    assert(rs[0] =~= n_via + cs + via);
    assert(rs[1] =~= n_from + cs + from);
    assert(rs[2] =~= n_to + cs + tw);
    assert(rs[3] =~= n_cid + cs + cid);
    assert(rs[4] =~= n_cseq + cs + cseq);
    lemma_header_line(n_via, via);
    lemma_header_line(n_from, from);
    lemma_header_line(n_to, tw);
    lemma_header_line(n_cid, cid);
    lemma_header_line(n_cseq, cseq);
    assert("Via"@ =~= n_via);
    assert("From"@ =~= n_from);
    assert("To"@ =~= n_to);
    assert("Call-ID"@ =~= n_cid);
    assert("CSeq"@ =~= n_cseq);
    let lv = ascii_lower(n_via);
    let lf = ascii_lower(n_from);
    let lt = ascii_lower(n_to);
    let lc = ascii_lower(n_cid);
    let lq = ascii_lower(n_cseq);
    assert(lv =~= seq!['v', 'i', 'a']);
    assert(lf =~= seq!['f', 'r', 'o', 'm']);
    assert(lt =~= seq!['t', 'o']);
    assert(lc =~= seq!['c', 'a', 'l', 'l', '-', 'i', 'd']);
    assert(lq =~= seq!['c', 's', 'e', 'q']);
    assert(ascii_lower(rs[0])[0] == 'v');
    assert(ascii_lower(rs[1])[0] == 'f');
    assert(ascii_lower(rs[2])[0] == 't');
    assert(ascii_lower(rs[3])[0] == 'c' && ascii_lower(rs[3])[1] == 'a');
    lemma_not_header_line(rs[0], lf, 0);
    lemma_not_header_line(rs[0], lt, 0);
    lemma_not_header_line(rs[1], lt, 0);
    lemma_not_header_line(rs[0], lc, 0);
    lemma_not_header_line(rs[1], lc, 0);
    lemma_not_header_line(rs[2], lc, 0);
    lemma_not_header_line(rs[0], lq, 0);
    lemma_not_header_line(rs[1], lq, 0);
    lemma_not_header_line(rs[2], lq, 0);
    lemma_not_header_line(rs[3], lq, 1);
    assert(first_header_from(rs, lv, 0, true) == Some(0int));
    assert(first_header_from(rs, lf, 1, true) == Some(1int));
    assert(first_header_from(rs, lf, 0, true) == Some(1int));
    assert(first_header_from(rs, lt, 2, true) == Some(2int));
    assert(first_header_from(rs, lt, 1, true) == Some(2int));
    assert(first_header_from(rs, lt, 0, true) == Some(2int));
    assert(first_header_from(rs, lc, 3, true) == Some(3int));
    assert(first_header_from(rs, lc, 2, true) == Some(3int));
    assert(first_header_from(rs, lc, 1, true) == Some(3int));
    assert(first_header_from(rs, lc, 0, true) == Some(3int));
    assert(first_header_from(rs, lq, 4, true) == Some(4int));
    assert(first_header_from(rs, lq, 3, true) == Some(4int));
    assert(first_header_from(rs, lq, 2, true) == Some(4int));
    assert(first_header_from(rs, lq, 1, true) == Some(4int));
    assert(first_header_from(rs, lq, 0, true) == Some(4int));
}

/// Reading the reply `m` with ASCII case folding gives the request's dialog
/// back: its Via, From, Call-ID and CSeq headers hold what the request's
/// headers `hs` did, and its To holds the request's with the tag added.
pub open spec fn echoes_dialog(hs: Seq<Seq<char>>, m: Seq<char>, to_tag: Option<Seq<char>>) -> bool {
    let rs = header_lines_spec(m);
    &&& get_header_by(rs, "Via"@, true) == header_of(hs, "Via"@)
    &&& get_header_by(rs, "From"@, true) == header_of(hs, "From"@)
    &&& header_of(hs, "To"@) matches Some(to)
    &&& get_header_by(rs, "To"@, true) == Some(to + tag_part(to_tag))
    &&& get_header_by(rs, "Call-ID"@, true) == header_of(hs, "Call-ID"@)
    &&& get_header_by(rs, "CSeq"@, true) == header_of(hs, "CSeq"@)
}

/// A reply gives the request's dialog back, and its first line carries the
/// status.
#[verifier::spinoff_prover]
pub proof fn law_reply_echoes_request(
    version: Seq<char>,
    code: Seq<char>,
    data: Seq<char>,
    sdp: Option<Seq<char>>,
    to_tag: Option<Seq<char>>,
)
    requires
        no_crlf(code),
        to_tag matches Some(t) ==> no_crlf(t) && (t.len() == 0 || !is_ws(t.last())),
    ensures
        reply_spec(version, code, header_lines_spec(data), sdp, to_tag) matches Ok(m) ==> {
            &&& first_line_spec(m) == "SIP/2.0 "@ + code
            &&& echoes_dialog(header_lines_spec(data), m, to_tag)
        },
{
    let hs = header_lines_spec(data);
    let r = reply_spec(version, code, hs, sdp, to_tag);
    if r is Ok {
        let m = r->Ok_0;
        let via = header_of(hs, "Via"@)->Some_0;
        let from = header_of(hs, "From"@)->Some_0;
        let to = header_of(hs, "To"@)->Some_0;
        let call_id = header_of(hs, "Call-ID"@)->Some_0;
        let cseq = header_of(hs, "CSeq"@)->Some_0;
        lemma_header_of_clean(data, "Via"@, false);
        lemma_header_of_clean(data, "From"@, false);
        lemma_header_of_clean(data, "To"@, false);
        lemma_header_of_clean(data, "Call-ID"@, false);
        lemma_header_of_clean(data, "CSeq"@, false);
        let tp = tag_part(to_tag);
        let tw = to + tp;
        assert(is_trimmed(tw) && no_crlf(tw)) by {
            match to_tag {
                Some(t) => {
                    reveal_strlit(";tag=");
                    let semi = seq![';', 't', 'a', 'g', '='];
                    assert(";tag="@ =~= semi);
                    lemma_no_cr(semi);
                    lemma_no_crlf_concat(semi, t);
                    lemma_no_crlf_concat(to, semi + t);
                    assert(tw =~= to + (semi + t));
                    if to.len() > 0 {
                        assert(tw[0] == to[0]);
                    } else {
                        assert(tw[0] == ';');
                    }
                    if t.len() > 0 {
                        assert(tw.last() == t.last());
                    } else {
                        assert(tw.last() == '=');
                    }
                },
                None => {
                    assert(tw =~= to);
                },
            }
        }
        let g = gb_ver_spec(version);
        let tail = match sdp {
            Some(b) => "Content-Type: application/sdp\r\nContent-Length: "@ + dec(
                encode_utf8(b).len(),
            ) + "\r\n\r\n"@ + b,
            None => "Content-Length: 0\r\n\r\n"@,
        };
        lemma_reply_regroup(
            "SIP/2.0 "@,
            code,
            "\r\n"@,
            "Via: "@,
            via,
            "From: "@,
            from,
            "To: "@,
            to,
            tp,
            "Call-ID: "@,
            call_id,
            "CSeq: "@,
            cseq,
            "X-GB-Ver: "@,
            g,
            "User-Agent: GBHub-Stress\r\n"@,
            tail,
        );
        assert(m == reply_layout(code, via, from, tw, call_id, cseq, g, tail));
        lemma_layout_lines(code, via, from, tw, call_id, cseq, g, tail);
        lemma_layout_reads(header_lines_spec(m), via, from, tw, call_id, cseq);
    }
}

/// A UUID text holds no CRLF and ends with a hex digit.
proof fn lemma_uuid_tag_admitted(t: Seq<char>)
    requires
        is_uuid_v4_text(t),
    ensures
        no_crlf(t),
        t.len() == 0 || !is_ws(t.last()),
{
    assert forall|k: int| 0 <= k < t.len() implies #[trigger] t[k] != '\r' by {
        if k == 8 || k == 13 || k == 18 || k == 23 {
        } else {
            assert(is_hex_lower_digit(t[k]));
        }
    }
    lemma_no_cr(t);
    assert(is_hex_lower_digit(t[35]));
}

/// The device's answers that carry its tag (the `200 OK` to an INVITE, with
/// or without a session description) give the request's dialog back, the To
/// header with the device's tag added.
pub proof fn law_tagged_answer_echoes_request(st: SipState, data: Seq<char>, sdp: Option<Seq<char>>)
    requires
        is_uuid_v4_text(st.local_tag@),
    ensures
        reply_spec(st.peer_version@, "200 OK"@, header_lines_spec(data), sdp, Some(st.local_tag@)) matches Ok(
            m,
        ) ==> echoes_dialog(header_lines_spec(data), m, Some(st.local_tag@)),
{
    lemma_uuid_tag_admitted(st.local_tag@);
    reveal_strlit("200 OK");
    lemma_no_cr("200 OK"@);
    law_reply_echoes_request(st.peer_version@, "200 OK"@, data, sdp, Some(st.local_tag@));
}

/// The serial number a catalog response carries: the query's, or 1 when it has none.
pub open spec fn catalog_sn(body: Seq<char>) -> Seq<char> {
    match xml_text_spec(body, "SN"@) {
        Some(t) => t,
        None => "1"@,
    }
}

/// The catalog response up to the text of its `SN` element, for the 2022 edition.
spec fn catalog_head_2022() -> Seq<char> {
    seq![
        '<', '?', 'x', 'm', 'l', ' ', 'v', 'e', 'r', 's', 'i', 'o', 'n', '=', '"', '1', '.', '0',
        '"', ' ', 'e', 'n', 'c', 'o', 'd', 'i', 'n', 'g', '=', '"', 'G', 'B', '1', '8', '0', '3',
        '0', '"', '?', '>', '\r', '\n', '<', 'R', 'e', 's', 'p', 'o', 'n', 's', 'e', '>', '\r',
        '\n', '<', 'C', 'm', 'd', 'T', 'y', 'p', 'e', '>', 'C', 'a', 't', 'a', 'l', 'o', 'g', '<',
        '/', 'C', 'm', 'd', 'T', 'y', 'p', 'e', '>', '\r', '\n', '<', 'S', 'N', '>'
    ]
}

/// The catalog response up to the text of its `SN` element, for other editions.
spec fn catalog_head_2016() -> Seq<char> {
    seq![
        '<', '?', 'x', 'm', 'l', ' ', 'v', 'e', 'r', 's', 'i', 'o', 'n', '=', '"', '1', '.', '0',
        '"', ' ', 'e', 'n', 'c', 'o', 'd', 'i', 'n', 'g', '=', '"', 'G', 'B', '2', '3', '1', '2',
        '"', '?', '>', '\r', '\n', '<', 'R', 'e', 's', 'p', 'o', 'n', 's', 'e', '>', '\r', '\n',
        '<', 'C', 'm', 'd', 'T', 'y', 'p', 'e', '>', 'C', 'a', 't', 'a', 'l', 'o', 'g', '<', '/',
        'C', 'm', 'd', 'T', 'y', 'p', 'e', '>', '\r', '\n', '<', 'S', 'N', '>'
    ]
}

/// In a text whose only capital S is its third-last character, the first
/// `<SN>` is the one that ends it.
proof fn lemma_sn_tag_at_end(p: Seq<char>)
    requires
        p.len() >= 4,
        p.subrange(p.len() - 4, p.len() as int) == seq!['<', 'S', 'N', '>'],
        forall|j: int| 0 <= j < p.len() && #[trigger] p[j] == 'S' ==> j == p.len() - 3,
    ensures
        find_from(p, seq!['<', 'S', 'N', '>'], 0) == Some(p.len() - 4),
{
    let st = seq!['<', 'S', 'N', '>'];
    assert forall|k: int| 0 <= k < p.len() - 4 implies !matches_at(p, st, k) by {
        if matches_at(p, st, k) {
            assert(p.subrange(k, k + 4)[1] == p[k + 1]);
        }
    }
    lemma_find_from_first(p, st, 0, p.len() - 4);
}

/// The first `<SN>` of a catalog response is the one before the serial number.
#[verifier::spinoff_prover]
proof fn lemma_catalog_head(v: Seq<char>)
    ensures
        ({
            let p = xml_header_spec(v) + "<Response>\r\n<CmdType>Catalog</CmdType>\r\n<SN>"@;
            &&& p.len() >= 4
            &&& find_from(p, open_tag("SN"@), 0) == Some(p.len() - 4)
        }),
{
    reveal_strlit("<?xml version=\"1.0\" encoding=\"GB18030\"?>\r\n");
    reveal_strlit("<?xml version=\"1.0\" encoding=\"GB2312\"?>\r\n");
    reveal_strlit("<Response>\r\n<CmdType>Catalog</CmdType>\r\n<SN>");
    reveal_strlit("SN");
    assert(open_tag("SN"@) =~= seq!['<', 'S', 'N', '>']);
    let p = xml_header_spec(v) + "<Response>\r\n<CmdType>Catalog</CmdType>\r\n<SN>"@;
    if is_2022(v) {
        let c = catalog_head_2022();
        assert(p =~= c);
        assert(c.subrange(c.len() - 4, c.len() as int) =~= seq!['<', 'S', 'N', '>']);
        assert forall|j: int| 0 <= j < c.len() && #[trigger] c[j] == 'S' implies j == c.len() - 3 by {}
        lemma_sn_tag_at_end(c);
    } else {
        let c = catalog_head_2016();
        assert(p =~= c);
        assert(c.subrange(c.len() - 4, c.len() as int) =~= seq!['<', 'S', 'N', '>']);
        assert forall|j: int| 0 <= j < c.len() && #[trigger] c[j] == 'S' implies j == c.len() - 3 by {}
        lemma_sn_tag_at_end(c);
    }
}

/// A catalog response answers the query's serial number: reading its `SN`
/// element gives the query's, or 1 when the query has none.
#[verifier::spinoff_prover]
pub proof fn law_catalog_echoes_sn(st: SipState, body: Seq<char>)
    requires
        xml_text_spec(body, "SN"@) matches Some(t) ==> t.len() == 0 || (!CharClass::Quotes.has(t[0])
            && !CharClass::Quotes.has(t.last())),
    ensures
        xml_text_spec(catalog_xml(st, body), "SN"@) == Some(catalog_sn(body)),
{
    let sn = catalog_sn(body);
    let device_id = match xml_text_spec(body, "DeviceID"@) {
        Some(t) => t,
        None => st.config.device_id@,
    };
    let p = xml_header_spec(st.peer_version@) + "<Response>\r\n<CmdType>Catalog</CmdType>\r\n<SN>"@;
    let q = "</SN>\r\n<DeviceID>"@ + device_id
        + "</DeviceID>\r\n<SumNum>1</SumNum>\r\n<DeviceList Num=\"1\">\r\n<Item>\r\n<DeviceID>"@
        + st.channel_id@ + "</DeviceID>\r\n<Name>"@ + "Channel-"@ + st.channel_id@
        + "</Name>\r\n<Parental>0</Parental>\r\n<ParentID>"@ + device_id
        + "</ParentID>\r\n<Status>ON</Status>\r\n</Item>\r\n</DeviceList>\r\n</Response>\r\n"@;
    assert(catalog_xml(st, body) =~= p + sn + q);
    lemma_catalog_head(st.peer_version@);
    lemma_xml_text_clean(body, "SN"@);
    reveal_strlit("SN");
    reveal_strlit("1");
    reveal_strlit("</SN>\r\n<DeviceID>");
    assert("SN"@ =~= seq!['S', 'N']);
    if xml_text_spec(body, "SN"@) is None {
        assert(sn =~= seq!['1']);
        assert forall|k: int| !#[trigger] matches_at(sn, close_tag("SN"@), k) by {}
    }
    assert(q.subrange(0, 5) =~= close_tag("SN"@));
    lemma_xml_text_layout(p, sn, q, "SN"@);
}

/// CANCEL and OPTIONS requests from the upstream server are answered
/// `200 OK`; for CANCEL the answer comes from the upstream server's datagram
/// whatever else the request line says.
pub proof fn law_cancel_and_options_answered_ok(st: SipState, src_ip: Seq<char>, data: Seq<char>)
    requires
        from_upstream(st, src_ip),
        starts_with(first_line_spec(data), "CANCEL"@) || starts_with(
            first_line_spec(data),
            "OPTIONS"@,
        ),
    ensures
        incoming_plan(st, src_ip, data) == Plan::Reply("200 OK"@),
{
    reveal_strlit("CANCEL");
    reveal_strlit("OPTIONS");
    reveal_strlit("SIP/2.0");
    reveal_strlit("INVITE");
    reveal_strlit("BYE");
    reveal_strlit("ACK");
    let first = first_line_spec(data);
    let p = if starts_with(first, "CANCEL"@) {
        "CANCEL"@
    } else {
        "OPTIONS"@
    };
    assert("CANCEL"@ =~= seq!['C', 'A', 'N', 'C', 'E', 'L']);
    assert("OPTIONS"@ =~= seq!['O', 'P', 'T', 'I', 'O', 'N', 'S']);
    assert("SIP/2.0"@ =~= seq!['S', 'I', 'P', '/', '2', '.', '0']);
    assert("INVITE"@ =~= seq!['I', 'N', 'V', 'I', 'T', 'E']);
    assert("BYE"@ =~= seq!['B', 'Y', 'E']);
    assert("ACK"@ =~= seq!['A', 'C', 'K']);
    lemma_starts_differ(first, p, "SIP/2.0"@);
    lemma_starts_differ(first, p, "INVITE"@);
    lemma_starts_differ(first, p, "BYE"@);
    lemma_starts_differ(first, p, "ACK"@);
}

/// The catalog names the channel in its one Item: after the query's device
/// and the count, the Item's DeviceID is the channel's ID, and its Name is
/// `Channel-` and that ID.
pub proof fn law_catalog_names_channel(st: SipState, body: Seq<char>)
    ensures
        contains(
            catalog_xml(st, body),
            "<DeviceList Num=\"1\">\r\n<Item>\r\n<DeviceID>"@ + st.channel_id@
                + "</DeviceID>\r\n<Name>"@ + "Channel-"@ + st.channel_id@ + "</Name>"@,
        ),
{
    reveal_strlit("</DeviceID>\r\n<SumNum>1</SumNum>\r\n<DeviceList Num=\"1\">\r\n<Item>\r\n<DeviceID>");
    reveal_strlit("<DeviceList Num=\"1\">\r\n<Item>\r\n<DeviceID>");
    reveal_strlit("</DeviceID>\r\n<SumNum>1</SumNum>\r\n");
    reveal_strlit("</Name>\r\n<Parental>0</Parental>\r\n<ParentID>");
    reveal_strlit("</Name>");
    reveal_strlit("\r\n<Parental>0</Parental>\r\n<ParentID>");
    let sn = catalog_sn(body);
    let device_id = match xml_text_spec(body, "DeviceID"@) {
        Some(t) => t,
        None => st.config.device_id@,
    };
    let a = xml_header_spec(st.peer_version@) + "<Response>\r\n<CmdType>Catalog</CmdType>\r\n<SN>"@
        + sn + "</SN>\r\n<DeviceID>"@ + device_id + "</DeviceID>\r\n<SumNum>1</SumNum>\r\n"@;
    let p = "<DeviceList Num=\"1\">\r\n<Item>\r\n<DeviceID>"@ + st.channel_id@
        + "</DeviceID>\r\n<Name>"@ + "Channel-"@ + st.channel_id@ + "</Name>"@;
    let b = "\r\n<Parental>0</Parental>\r\n<ParentID>"@ + device_id
        + "</ParentID>\r\n<Status>ON</Status>\r\n</Item>\r\n</DeviceList>\r\n</Response>\r\n"@;
    assert("</DeviceID>\r\n<SumNum>1</SumNum>\r\n<DeviceList Num=\"1\">\r\n<Item>\r\n<DeviceID>"@
        =~= "</DeviceID>\r\n<SumNum>1</SumNum>\r\n"@ + "<DeviceList Num=\"1\">\r\n<Item>\r\n<DeviceID>"@);
    assert("</Name>\r\n<Parental>0</Parental>\r\n<ParentID>"@ =~= "</Name>"@
        + "\r\n<Parental>0</Parental>\r\n<ParentID>"@);
    assert(catalog_xml(st, body) =~= a + p + b);
    lemma_contains_middle(a, p, b);
}

/// Only the XML declaration depends on the version the peer speaks: two
/// states that differ only in the peer version answer a query with the same
/// catalog after their declarations.
pub proof fn law_catalog_independent_of_version(st1: SipState, st2: SipState, body: Seq<char>)
    requires
        st2 == (SipState { peer_version: st2.peer_version, ..st1 }),
    ensures
        catalog_xml(st1, body).skip(xml_header_spec(st1.peer_version@).len() as int) == catalog_xml(
            st2,
            body,
        ).skip(xml_header_spec(st2.peer_version@).len() as int),
        catalog_xml(st1, body).subrange(0, xml_header_spec(st1.peer_version@).len() as int)
            == xml_header_spec(st1.peer_version@),
{
    let h1 = xml_header_spec(st1.peer_version@);
    let h2 = xml_header_spec(st2.peer_version@);
    let r1 = catalog_xml(st1, body).skip(h1.len() as int);
    let r2 = catalog_xml(st2, body).skip(h2.len() as int);
    assert(r1 =~= r2);
    assert(catalog_xml(st1, body).subrange(0, h1.len() as int) =~= h1);
}

} // verus!
