//! REGISTER requests with digest authentication, keepalives and MANSCDP
//! MESSAGE requests.
use vstd::prelude::*;
use vstd::utf8::encode_utf8;
use crate::codec::{hex_encode, hex_lower, md5_digest, random_bytes4, sha256_digest};
use crate::error::{Fault, SipError};
use crate::num::{dec, is_digit, lemma_dec_value, push_dec};
use crate::sip::state::{uses_tcp, via_transport_spec, SipState};
use crate::sip::utils::{
    crlf, first_line_spec, header_lines_spec, lemma_no_cr, lemma_nonempty_lines_all,
    lemma_nonempty_lines_concat, lemma_split_line,
    encode_xml, gb_ver, gb_ver_spec, is_2022, md5_hash, parse_www_authenticate, sha256_hash,
    www_authenticate_spec, xml_header, xml_header_spec,
};
use crate::codec::gb_bytes;
use crate::text::{
    all_ascii, split, chars_of, contains, contains_exec, eq_ignore_ascii_case_exec, seq_eq,
    to_uppercase, uppercase_of,
};

verus! {

/// The view of a result that carries a text.
pub open spec fn text_result_view(r: Result<String, SipError>) -> Result<Seq<char>, Fault> {
    match r {
        Ok(s) => Ok(s@),
        Err(e) => Err(e@),
    }
}

/// The address in the Contact header: the public address, or the local one when none is set.
pub open spec fn contact_ip(st: SipState) -> Seq<char> {
    if st.public_ip@.len() == 0 {
        st.config.local_ip@
    } else {
        st.public_ip@
    }
}

/// A REGISTER request to `dest` with the given CSeq number, lifetime and Via
/// branch; `auth` is inserted before Max-Forwards.
pub open spec fn register_text(
    st: SipState,
    dest: Seq<char>,
    seq: u32,
    expires: u32,
    branch: Seq<char>,
    auth: Seq<char>,
) -> Seq<char> {
    "REGISTER sip:"@ + st.upper_server_id@ + "@"@ + dest + " SIP/2.0\r\nVia: SIP/2.0/"@
        + via_transport_spec(st) + " "@ + st.config.local_ip@ + ":"@ + dec(
        st.config.local_port as nat,
    ) + ";rport;branch="@ + branch + "\r\nFrom: <sip:"@ + st.config.device_id@ + "@"@
        + st.config.realm@ + ">;tag="@ + st.local_tag@ + "\r\nTo: <sip:"@ + st.upper_server_id@
        + "@"@ + dest + ">\r\nCall-ID: "@ + st.call_id_base@ + "\r\nCSeq: "@ + dec(seq as nat)
        + " REGISTER\r\nX-GB-Ver: "@ + gb_ver_spec(st.peer_version@) + "\r\nContact: <sip:"@
        + st.config.device_id@ + "@"@ + contact_ip(st) + ":"@ + dec(st.config.local_port as nat)
        + ">\r\n"@ + auth + "Max-Forwards: 70\r\nUser-Agent: GBHub-Stress\r\nExpires: "@ + dec(
        expires as nat,
    ) + "\r\nContent-Length: 0\r\n\r\n"@
}

/// An algorithm name (already upper-cased) that selects SHA-256.
pub open spec fn is_sha256_name(alg: Seq<char>) -> bool {
    alg == "SHA256"@ || alg == "SHA-256"@
}

/// The lower-case hex digest of a text's UTF-8 bytes, SHA-256 or MD5.
pub open spec fn digest_hex(sha: bool, text: Seq<char>) -> Seq<char> {
    if sha {
        hex_lower(sha256_digest(encode_utf8(text)))
    } else {
        hex_lower(md5_digest(encode_utf8(text)))
    }
}

/// The challenge's algorithm, upper-cased, or `MD5` when it names none.
pub open spec fn challenge_algorithm(params: Map<Seq<char>, Seq<char>>) -> Seq<char> {
    if params.contains_key("algorithm"@) {
        uppercase_of(params["algorithm"@])
    } else {
        "MD5"@
    }
}

/// The challenge asks for `qop=auth`.
pub open spec fn challenge_qop_auth(params: Map<Seq<char>, Seq<char>>) -> bool {
    params.contains_key("qop"@) && params["qop"@] == "auth"@
}

/// The digest request-URI of a REGISTER to `dest`.
pub open spec fn register_uri(st: SipState, dest: Seq<char>) -> Seq<char> {
    "sip:"@ + st.upper_server_id@ + "@"@ + dest
}

/// The Authorization header line; the client nonce part appears when `cnonce` is given.
pub open spec fn authorization_line(
    username: Seq<char>,
    realm: Seq<char>,
    nonce: Seq<char>,
    uri: Seq<char>,
    response: Seq<char>,
    sha: bool,
    cnonce: Option<Seq<char>>,
) -> Seq<char> {
    "Authorization: Digest username=\""@ + username + "\", realm=\""@ + realm + "\", nonce=\""@
        + nonce + "\", uri=\""@ + uri + "\", response=\""@ + response + "\", algorithm="@ + (if sha {
        "SHA-256"@
    } else {
        "MD5"@
    }) + (match cnonce {
        Some(c) => ", cnonce=\""@ + c + "\""@ + ", nc="@ + "00000001"@ + ", qop="@ + "auth"@,
        None => Seq::<char>::empty(),
    }) + "\r\n"@
}

/// The digest response (RFC 2617): H(HA1:nonce:HA2), or with `qop=auth`
/// H(HA1:nonce:00000001:cnonce:auth:HA2).
pub open spec fn digest_response(
    sha: bool,
    ha1: Seq<char>,
    nonce: Seq<char>,
    cnonce: Seq<char>,
    qop_auth: bool,
    ha2: Seq<char>,
) -> Seq<char> {
    if qop_auth {
        digest_hex(
            sha,
            ha1 + ":"@ + nonce + ":"@ + "00000001"@ + ":"@ + cnonce + ":auth:"@ + ha2,
        )
    } else {
        digest_hex(sha, ha1 + ":"@ + nonce + ":"@ + ha2)
    }
}

/// The Authorization line answering the stored challenge for a REGISTER to `dest`.
pub open spec fn authorization_spec(st: SipState, dest: Seq<char>, cnonce: Seq<char>) -> Result<
    Seq<char>,
    Fault,
> {
    match st.nonce {
        None => Err(Fault::NoChallenge),
        Some(www) => {
            let params = www_authenticate_spec(www@);
            if !params.contains_key("nonce"@) {
                Err(Fault::NoNonce)
            } else {
                let nonce = params["nonce"@];
                let sha = is_sha256_name(challenge_algorithm(params));
                let ha1 = digest_hex(
                    sha,
                    st.config.device_id@ + ":"@ + st.config.realm@ + ":"@ + st.config.password@,
                );
                let uri = register_uri(st, dest);
                let ha2 = digest_hex(sha, "REGISTER:"@ + uri);
                let qop_auth = challenge_qop_auth(params);
                let response = digest_response(sha, ha1, nonce, cnonce, qop_auth, ha2);
                Ok(
                    authorization_line(
                        st.config.device_id@,
                        st.config.realm@,
                        nonce,
                        uri,
                        response,
                        sha,
                        if qop_auth {
                            Some(cnonce)
                        } else {
                            None
                        },
                    ),
                )
            }
        },
    }
}

/// What a REGISTER attempt yields: the request, or why none is sent.
pub open spec fn register_outcome(
    st: SipState,
    dest: Seq<char>,
    expires: u32,
    with_auth: bool,
    branch: Seq<char>,
    cnonce: Seq<char>,
) -> Result<Seq<char>, Fault> {
    let auth = if with_auth {
        authorization_spec(st, dest, cnonce)
    } else {
        Ok(Seq::<char>::empty())
    };
    match auth {
        Err(e) => Err(e),
        Ok(a) => if uses_tcp(st) {
            Err(Fault::TcpUnsupported)
        } else {
            Ok(register_text(st, dest, st.cseq, expires, branch, a))
        },
    }
}

/// The hex digest of a text: SHA-256 when `sha`, MD5 otherwise.
pub fn digest_hash(sha: bool, text: &str) -> (r: String)
    ensures
        r@ == digest_hex(sha, text@),
{
    if sha {
        sha256_hash(text)
    } else {
        md5_hash(text)
    }
}

/// The Authorization header line for a computed digest response.
pub fn authorization_header(
    username: &str,
    realm: &str,
    nonce: &str,
    uri: &str,
    response: &str,
    sha: bool,
    cnonce: Option<&str>,
) -> (r: String)
    ensures
        r@ == authorization_line(
            username@,
            realm@,
            nonce@,
            uri@,
            response@,
            sha,
            match cnonce {
                Some(c) => Some(c@),
                None => None,
            },
        ),
{
    let mut h = String::from_str("Authorization: Digest username=\"");
    h.append(username);
    h.append("\", realm=\"");
    h.append(realm);
    h.append("\", nonce=\"");
    h.append(nonce);
    h.append("\", uri=\"");
    h.append(uri);
    h.append("\", response=\"");
    h.append(response);
    h.append("\", algorithm=");
    let ghost before = h@;
    if sha {
        h.append("SHA-256");
    } else {
        h.append("MD5");
    }
    let ghost mid = h@;
    match cnonce {
        Some(c) => {
            h.append(", cnonce=\"");
            h.append(c);
            h.append("\"");
            h.append(", nc=");
            h.append("00000001");
            h.append(", qop=");
            h.append("auth");
            assert(h@ =~= mid + (", cnonce=\""@ + c@ + "\""@ + ", nc="@ + "00000001"@ + ", qop="@
                + "auth"@));
        },
        None => {
            assert(h@ =~= mid + Seq::<char>::empty());
        },
    }
    h.append("\r\n");
    h
}

impl SipState {
    /// The REGISTER request to `dest` with the given CSeq number, lifetime,
    /// Via branch and Authorization line (empty for none).
    pub fn register_message(
        &self,
        dest: &str,
        seq: u32,
        expires: u32,
        branch: &str,
        auth: &str,
    ) -> (r: String)
        ensures
            r@ == register_text(*self, dest@, seq, expires, branch@, auth@),
    {
        let contact: &str = if self.public_ip.as_str().is_empty() {
            self.config.local_ip.as_str()
        } else {
            self.public_ip.as_str()
        };
        let mut m = String::from_str("REGISTER sip:");
        m.append(self.upper_server_id.as_str());
        m.append("@");
        m.append(dest);
        m.append(" SIP/2.0\r\nVia: SIP/2.0/");
        m.append(self.via_transport());
        m.append(" ");
        m.append(self.config.local_ip.as_str());
        m.append(":");
        push_dec(&mut m, self.config.local_port as u64);
        m.append(";rport;branch=");
        m.append(branch);
        m.append("\r\nFrom: <sip:");
        m.append(self.config.device_id.as_str());
        m.append("@");
        m.append(self.config.realm.as_str());
        m.append(">;tag=");
        m.append(self.local_tag.as_str());
        m.append("\r\nTo: <sip:");
        m.append(self.upper_server_id.as_str());
        m.append("@");
        m.append(dest);
        m.append(">\r\nCall-ID: ");
        m.append(self.call_id_base.as_str());
        m.append("\r\nCSeq: ");
        push_dec(&mut m, seq as u64);
        m.append(" REGISTER\r\nX-GB-Ver: ");
        m.append(gb_ver(self.peer_version.as_str()));
        m.append("\r\nContact: <sip:");
        m.append(self.config.device_id.as_str());
        m.append("@");
        m.append(contact);
        m.append(":");
        push_dec(&mut m, self.config.local_port as u64);
        m.append(">\r\n");
        m.append(auth);
        m.append("Max-Forwards: 70\r\nUser-Agent: GBHub-Stress\r\nExpires: ");
        push_dec(&mut m, expires as u64);
        m.append("\r\nContent-Length: 0\r\n\r\n");
        m
    }

    /// The Authorization line answering the stored challenge for a REGISTER
    /// to `dest`, with `cnonce` as the client nonce when `qop=auth` is asked.
    pub fn authorization(&self, dest: &str, cnonce: &str) -> (r: Result<String, SipError>)
        ensures
            text_result_view(r) == authorization_spec(*self, dest@, cnonce@),
    {
        let www = match &self.nonce {
            Some(w) => w,
            None => {
                return Err(SipError::NoChallenge);
            },
        };
        let params = parse_www_authenticate(www.as_str());
        let nonce = match params.get("nonce") {
            Some(n) => n,
            None => {
                return Err(SipError::NoNonce);
            },
        };
        let algorithm = match params.get("algorithm") {
            Some(a) => to_uppercase(a.as_str()),
            None => String::from_str("MD5"),
        };
        let alg = chars_of(algorithm.as_str());
        let s1 = chars_of("SHA256");
        let s2 = chars_of("SHA-256");
        let sha = seq_eq(alg.as_slice(), s1.as_slice()) || seq_eq(alg.as_slice(), s2.as_slice());
        let device_id = self.config.device_id.as_str();
        let realm = self.config.realm.as_str();
        let mut a1 = device_id.to_owned();
        a1.append(":");
        a1.append(realm);
        a1.append(":");
        a1.append(self.config.password.as_str());
        let ha1 = digest_hash(sha, a1.as_str());
        let mut uri = String::from_str("sip:");
        uri.append(self.upper_server_id.as_str());
        uri.append("@");
        uri.append(dest);
        let mut a2 = String::from_str("REGISTER:");
        a2.append(uri.as_str());
        let ha2 = digest_hash(sha, a2.as_str());
        let qop_auth = match params.get("qop") {
            Some(q) => {
                let qc = chars_of(q.as_str());
                let auth = chars_of("auth");
                seq_eq(qc.as_slice(), auth.as_slice())
            },
            None => false,
        };
        let mut text = ha1.clone();
        text.append(":");
        text.append(nonce.as_str());
        text.append(":");
        if qop_auth {
            text.append("00000001");
            text.append(":");
            text.append(cnonce);
            text.append(":auth:");
        }
        text.append(ha2.as_str());
        let response = digest_hash(sha, text.as_str());
        let header = authorization_header(
            device_id,
            realm,
            nonce.as_str(),
            uri.as_str(),
            response.as_str(),
            sha,
            if qop_auth {
                Some(cnonce)
            } else {
                None
            },
        );
        Ok(header)
    }

    /// Takes the next CSeq number and produces a REGISTER to `dest` asking for
    /// `expires` seconds, answering the stored challenge when `with_auth`. The
    /// Via branch and client nonce are hex of four random bytes each; the CSeq
    /// number advances whether or not a request comes out.
    pub fn send_register_to(&mut self, dest: &str, expires: u32, with_auth: bool) -> (r: Result<
        String,
        SipError,
    >)
        requires
            old(self).cseq < u32::MAX,
        ensures
            *final(self) == (SipState { cseq: (old(self).cseq + 1) as u32, ..*old(self) }),
            exists|b: Seq<u8>, c: Seq<u8>|
                b.len() == 4 && c.len() == 4 && text_result_view(r) == register_outcome(
                    *old(self),
                    dest@,
                    expires,
                    with_auth,
                    "z9hG4bK-"@ + #[trigger] hex_lower(b),
                    #[trigger] hex_lower(c),
                ),
    {
        let ghost st = *self;
        let rb = random_bytes4();
        let rh = hex_encode(rb.as_slice());
        let mut branch = String::from_str("z9hG4bK-");
        branch.append(rh.as_str());
        let rc = random_bytes4();
        let cnonce = hex_encode(rc.as_slice());
        let auth = if with_auth {
            self.authorization(dest, cnonce.as_str())
        } else {
            Ok(String::new())
        };
        let r = match auth {
            Err(e) => Err(e),
            Ok(a) => {
                let tc = chars_of(self.config.transport.as_str());
                let tcp = chars_of("TCP");
                if eq_ignore_ascii_case_exec(tc.as_slice(), tcp.as_slice()) {
                    Err(SipError::TcpUnsupported)
                } else {
                    Ok(self.register_message(dest, self.cseq, expires, branch.as_str(), a.as_str()))
                }
            },
        };
        self.cseq = self.cseq + 1;
        assert(text_result_view(r) == register_outcome(
            st,
            dest@,
            expires,
            with_auth,
            "z9hG4bK-"@ + hex_lower(rb@),
            hex_lower(rc@),
        ));
        r
    }
}

/// The header of a MANSCDP MESSAGE request with the given CSeq number, Via
/// branch and body length in bytes.
pub open spec fn message_header_text(st: SipState, seq: u32, branch: Seq<char>, content_length: nat) -> Seq<
    char,
> {
    "MESSAGE sip:"@ + st.upper_server_id@ + "@"@ + st.config.realm@ + " SIP/2.0\r\nVia: SIP/2.0/"@
        + via_transport_spec(st) + " "@ + st.public_ip@ + ":"@ + dec(st.config.local_port as nat)
        + ";rport;branch="@ + branch + "\r\nFrom: <sip:"@ + st.config.device_id@ + "@"@
        + st.config.realm@ + ">;tag="@ + st.local_tag@ + "\r\nTo: <sip:"@ + st.upper_server_id@
        + "@"@ + st.config.realm@ + ">\r\nCall-ID: "@ + st.call_id_base@ + "\r\nCSeq: "@ + dec(
        seq as nat,
    ) + " MESSAGE\r\nX-GB-Ver: "@ + gb_ver_spec(st.peer_version@)
        + "\r\nContent-Type: application/MANSCDP+xml\r\nMax-Forwards: 70\r\nUser-Agent: GBHub-Stress\r\nContent-Length: "@
        + dec(content_length) + "\r\n\r\n"@
}

/// The encoded body of a MANSCDP message for the peer's version.
pub open spec fn message_body_bytes(version: Seq<char>, xml: Seq<char>) -> Seq<u8> {
    gb_bytes(is_2022(version), xml)
}

/// A MESSAGE request carrying `xml`: the header in UTF-8, then the encoded body,
/// whose byte count the Content-Length states.
pub open spec fn message_packet(st: SipState, xml: Seq<char>, branch: Seq<char>) -> Seq<u8> {
    let body = message_body_bytes(st.peer_version@, xml);
    encode_utf8(message_header_text(st, st.cseq, branch, body.len())) + body
}

/// The keepalive notification body.
pub open spec fn keepalive_xml(st: SipState) -> Seq<char> {
    xml_header_spec(st.peer_version@)
        + "<Notify>\r\n<CmdType>Keepalive</CmdType>\r\n<SN>1</SN>\r\n<DeviceID>"@
        + st.config.device_id@ + "</DeviceID>\r\n<Status>OK</Status>\r\n</Notify>\r\n"@
}

/// A REGISTER that failed with this text is tried again with credentials:
/// the text mentions 401 or 407.
pub open spec fn needs_auth_retry_spec(error_text: Seq<char>) -> bool {
    contains(error_text, "401"@) || contains(error_text, "407"@)
}

/// Whether a failed REGISTER should be tried again with credentials.
pub fn needs_auth_retry(error_text: &str) -> (r: bool)
    ensures
        r == needs_auth_retry_spec(error_text@),
{
    let e = chars_of(error_text);
    let a = chars_of("401");
    let b = chars_of("407");
    contains_exec(e.as_slice(), a.as_slice()) || contains_exec(e.as_slice(), b.as_slice())
}

impl SipState {
    /// The header of a MESSAGE request.
    pub fn message_header(&self, seq: u32, branch: &str, content_length: usize) -> (r: String)
        ensures
            r@ == message_header_text(*self, seq, branch@, content_length as nat),
    {
        let mut h = String::from_str("MESSAGE sip:");
        h.append(self.upper_server_id.as_str());
        h.append("@");
        h.append(self.config.realm.as_str());
        h.append(" SIP/2.0\r\nVia: SIP/2.0/");
        h.append(self.via_transport());
        h.append(" ");
        h.append(self.public_ip.as_str());
        h.append(":");
        push_dec(&mut h, self.config.local_port as u64);
        h.append(";rport;branch=");
        h.append(branch);
        h.append("\r\nFrom: <sip:");
        h.append(self.config.device_id.as_str());
        h.append("@");
        h.append(self.config.realm.as_str());
        h.append(">;tag=");
        h.append(self.local_tag.as_str());
        h.append("\r\nTo: <sip:");
        h.append(self.upper_server_id.as_str());
        h.append("@");
        h.append(self.config.realm.as_str());
        h.append(">\r\nCall-ID: ");
        h.append(self.call_id_base.as_str());
        h.append("\r\nCSeq: ");
        push_dec(&mut h, seq as u64);
        h.append(" MESSAGE\r\nX-GB-Ver: ");
        h.append(gb_ver(self.peer_version.as_str()));
        h.append(
            "\r\nContent-Type: application/MANSCDP+xml\r\nMax-Forwards: 70\r\nUser-Agent: GBHub-Stress\r\nContent-Length: ",
        );
        push_dec(&mut h, content_length as u64);
        h.append("\r\n\r\n");
        h
    }

    /// Takes the next CSeq number and produces a MESSAGE request carrying
    /// `xml`, encoded for the peer's version, with a random Via branch.
    pub fn send_message_to(&mut self, xml: &str) -> (r: Vec<u8>)
        requires
            old(self).cseq < u32::MAX,
            all_ascii(xml@) || xml@.len() < 0x1000_0000,
        ensures
            *final(self) == (SipState { cseq: (old(self).cseq + 1) as u32, ..*old(self) }),
            exists|b: Seq<u8>|
                b.len() == 4 && r@ == message_packet(
                    *old(self),
                    xml@,
                    "z9hG4bK-"@ + #[trigger] hex_lower(b),
                ),
    {
        let ghost st = *self;
        let seq = self.cseq;
        self.cseq = self.cseq + 1;
        let mut body = encode_xml(self.peer_version.as_str(), xml);
        let rb = random_bytes4();
        let rh = hex_encode(rb.as_slice());
        let mut branch = String::from_str("z9hG4bK-");
        branch.append(rh.as_str());
        let header = self.message_header(seq, branch.as_str(), body.len());
        assert(message_header_text(*self, seq, branch@, body@.len()) == message_header_text(
            st,
            seq,
            branch@,
            body@.len(),
        ));
        let mut packet = header.as_str().as_bytes_vec();
        packet.append(&mut body);
        assert(packet@ == message_packet(st, xml@, "z9hG4bK-"@ + hex_lower(rb@)));
        packet
    }

    /// Takes the next CSeq number and produces a keepalive MESSAGE for the upstream server.
    pub fn heartbeat(&mut self) -> (r: Vec<u8>)
        requires
            old(self).cseq < u32::MAX,
            old(self).config.device_id@.len() < 0x0100_0000,
        ensures
            *final(self) == (SipState { cseq: (old(self).cseq + 1) as u32, ..*old(self) }),
            exists|b: Seq<u8>|
                b.len() == 4 && r@ == message_packet(
                    *old(self),
                    keepalive_xml(*old(self)),
                    "z9hG4bK-"@ + #[trigger] hex_lower(b),
                ),
    {
        let mut xml = xml_header(self.peer_version.as_str());
        xml.append("<Notify>\r\n<CmdType>Keepalive</CmdType>\r\n<SN>1</SN>\r\n<DeviceID>");
        xml.append(self.config.device_id.as_str());
        xml.append("</DeviceID>\r\n<Status>OK</Status>\r\n</Notify>\r\n");
        proof {
            reveal_strlit("<Notify>\r\n<CmdType>Keepalive</CmdType>\r\n<SN>1</SN>\r\n<DeviceID>");
            reveal_strlit("</DeviceID>\r\n<Status>OK</Status>\r\n</Notify>\r\n");
            reveal_strlit("<?xml version=\"1.0\" encoding=\"GB18030\"?>\r\n");
            reveal_strlit("<?xml version=\"1.0\" encoding=\"GB2312\"?>\r\n");
        }
        self.send_message_to(xml.as_str())
    }
}

/// Digest authentication answers the stored challenge as RFC 2617 does,
/// whatever the algorithm: with `qop=auth` the response is the hex digest of
/// `HA1:nonce:00000001:cnonce:auth:HA2` and the header declares the client
/// nonce, `nc=00000001` and `qop=auth`; without it, the digest of
/// `HA1:nonce:HA2` and no client nonce. HA1 digests `user:realm:password` and
/// HA2 `REGISTER:uri`, with `uri` the request-URI `sip:upper@dest`.
pub proof fn law_digest_answers_challenge(st: SipState, dest: Seq<char>, cnonce: Seq<char>)
    requires
        st.nonce is Some,
        www_authenticate_spec(st.nonce->Some_0@).contains_key("nonce"@),
    ensures
        ({
            let params = www_authenticate_spec(st.nonce->Some_0@);
            let nonce = params["nonce"@];
            let sha = is_sha256_name(challenge_algorithm(params));
            let user = st.config.device_id@;
            let realm = st.config.realm@;
            let uri = "sip:"@ + st.upper_server_id@ + "@"@ + dest;
            let ha1 = digest_hex(sha, user + ":"@ + realm + ":"@ + st.config.password@);
            let ha2 = digest_hex(sha, "REGISTER:"@ + uri);
            let alg = if sha {
                "SHA-256"@
            } else {
                "MD5"@
            };
            let head = "Authorization: Digest username=\""@ + user + "\", realm=\""@ + realm
                + "\", nonce=\""@ + nonce + "\", uri=\""@ + uri + "\", response=\""@;
            if challenge_qop_auth(params) {
                authorization_spec(st, dest, cnonce) == Ok::<Seq<char>, Fault>(
                    head + digest_hex(
                        sha,
                        ha1 + ":"@ + nonce + ":"@ + "00000001"@ + ":"@ + cnonce + ":auth:"@ + ha2,
                    ) + "\", algorithm="@ + alg + ", cnonce=\""@ + cnonce + "\""@ + ", nc="@
                        + "00000001"@ + ", qop="@ + "auth"@ + "\r\n"@,
                )
            } else {
                authorization_spec(st, dest, cnonce) == Ok::<Seq<char>, Fault>(
                    head + digest_hex(sha, ha1 + ":"@ + nonce + ":"@ + ha2) + "\", algorithm="@
                        + alg + "\r\n"@,
                )
            }
        }),
{
    let params = www_authenticate_spec(st.nonce->Some_0@);
    let nonce = params["nonce"@];
    let sha = is_sha256_name(challenge_algorithm(params));
    let user = st.config.device_id@;
    let realm = st.config.realm@;
    let uri = "sip:"@ + st.upper_server_id@ + "@"@ + dest;
    let ha1 = digest_hex(sha, user + ":"@ + realm + ":"@ + st.config.password@);
    let ha2 = digest_hex(sha, "REGISTER:"@ + uri);
    let qop = challenge_qop_auth(params);
    let response = digest_response(sha, ha1, nonce, cnonce, qop, ha2);
    let line = authorization_line(user, realm, nonce, uri, response, sha, if qop {
        Some(cnonce)
    } else {
        None
    });
    assert(authorization_spec(st, dest, cnonce) == Ok::<Seq<char>, Fault>(line));
    let alg = if sha {
        "SHA-256"@
    } else {
        "MD5"@
    };
    let head = "Authorization: Digest username=\""@ + user + "\", realm=\""@ + realm
        + "\", nonce=\""@ + nonce + "\", uri=\""@ + uri + "\", response=\""@;
    if qop {
        assert(line =~= head + response + "\", algorithm="@ + alg + ", cnonce=\""@ + cnonce + "\""@
            + ", nc="@ + "00000001"@ + ", qop="@ + "auth"@ + "\r\n"@);
    } else {
        assert(line =~= head + response + "\", algorithm="@ + alg + "\r\n"@);
    }
}

/// The text holds neither a carriage return nor a line feed.
pub open spec fn single_line(s: Seq<char>) -> bool {
    forall|k: int| 0 <= k < s.len() ==> #[trigger] s[k] != '\r' && s[k] != '\n'
}

/// Joining single-line texts gives a single line.
proof fn lemma_single_line_concat(a: Seq<char>, b: Seq<char>)
    requires
        single_line(a),
        single_line(b),
    ensures
        single_line(a + b),
{
    assert forall|k: int| 0 <= k < (a + b).len() implies #[trigger] (a + b)[k] != '\r' && (a
        + b)[k] != '\n' by {
        if k < a.len() {
            assert((a + b)[k] == a[k]);
        } else {
            assert((a + b)[k] == b[k - a.len()]);
        }
    }
}

/// The literal pieces of a MESSAGE header's first lines.
proof fn lemma_message_literals()
    ensures
        " SIP/2.0\r\nVia: SIP/2.0/"@ == " SIP/2.0"@ + crlf() + "Via: SIP/2.0/"@,
        "\r\nFrom: <sip:"@ == crlf() + "From: <sip:"@,
        "\r\nTo: <sip:"@ == crlf() + "To: <sip:"@,
        ">\r\nCall-ID: "@ == ">"@ + crlf() + "Call-ID: "@,
        single_line("MESSAGE sip:"@),
        single_line("@"@),
        single_line(" SIP/2.0"@),
        single_line("Via: SIP/2.0/"@),
        single_line(" "@),
        single_line(":"@),
        single_line(";rport;branch="@),
        single_line("From: <sip:"@),
        single_line(">;tag="@),
        single_line("To: <sip:"@),
        single_line(">"@),
        single_line("TCP"@),
        single_line("UDP"@),
        "Via: SIP/2.0/"@.len() > 0,
        "From: <sip:"@.len() > 0,
        "To: <sip:"@.len() > 0,
{
    reveal_strlit(" SIP/2.0\r\nVia: SIP/2.0/");
    reveal_strlit(" SIP/2.0");
    reveal_strlit("Via: SIP/2.0/");
    reveal_strlit("\r\nFrom: <sip:");
    reveal_strlit("From: <sip:");
    reveal_strlit("\r\nTo: <sip:");
    reveal_strlit("To: <sip:");
    reveal_strlit(">\r\nCall-ID: ");
    reveal_strlit(">");
    reveal_strlit("Call-ID: ");
    reveal_strlit("MESSAGE sip:");
    reveal_strlit("@");
    reveal_strlit(" ");
    reveal_strlit(":");
    reveal_strlit(";rport;branch=");
    reveal_strlit(">;tag=");
    reveal_strlit("TCP");
    reveal_strlit("UDP");
    assert(" SIP/2.0\r\nVia: SIP/2.0/"@ =~= " SIP/2.0"@ + crlf() + "Via: SIP/2.0/"@);
    assert("\r\nFrom: <sip:"@ =~= crlf() + "From: <sip:"@);
    assert("\r\nTo: <sip:"@ =~= crlf() + "To: <sip:"@);
    assert(">\r\nCall-ID: "@ =~= ">"@ + crlf() + "Call-ID: "@);
}

/// A numeral is a single line.
proof fn lemma_dec_single_line(n: nat)
    ensures
        single_line(dec(n)),
{
    lemma_dec_value(n);
    assert forall|k: int| 0 <= k < dec(n).len() implies #[trigger] dec(n)[k] != '\r' && dec(n)[k]
        != '\n' by {
        assert(is_digit(dec(n)[k]));
    }
}

/// Regrouping a MESSAGE header's pieces by its first four lines.
#[verifier::spinoff_prover]
#[verifier::rlimit(80)]
proof fn lemma_message_regroup_pieces(
    m0: Seq<char>,
    upper: Seq<char>,
    at: Seq<char>,
    realm: Seq<char>,
    s20: Seq<char>,
    c: Seq<char>,
    via: Seq<char>,
    tr: Seq<char>,
    sp: Seq<char>,
    ip: Seq<char>,
    colon: Seq<char>,
    dp: Seq<char>,
    rb: Seq<char>,
    branch: Seq<char>,
    from: Seq<char>,
    dev: Seq<char>,
    tagl: Seq<char>,
    tag: Seq<char>,
    to: Seq<char>,
    gt: Seq<char>,
    cidl: Seq<char>,
    rest: Seq<char>,
)
    ensures
        m0 + upper + at + realm + (s20 + c + via) + tr + sp + ip + colon + dp + rb + branch + (c
            + from) + dev + at + realm + tagl + tag + (c + to) + upper + at + realm + (gt + c
            + cidl) + rest == (m0 + upper + at + realm + s20) + c + ((via + tr + sp + ip + colon
            + dp + rb + branch) + c + ((from + dev + at + realm + tagl + tag) + c + ((to + upper
            + at + realm + gt) + c + (cidl + rest)))),
{
    let lhs = m0 + upper + at + realm + (s20 + c + via) + tr + sp + ip + colon + dp + rb + branch
        + (c + from) + dev + at + realm + tagl + tag + (c + to) + upper + at + realm + (gt + c
        + cidl) + rest;
    let x3 = (to + upper + at + realm + gt) + c + (cidl + rest);
    let x2 = (from + dev + at + realm + tagl + tag) + c + x3;
    let rhs = (m0 + upper + at + realm + s20) + c + ((via + tr + sp + ip + colon + dp + rb
        + branch) + c + x2);
    assert(lhs =~= rhs);
}

/// The MESSAGE header grouped by its first four lines.
#[verifier::spinoff_prover]
proof fn lemma_message_regroup(st: SipState, seq: u32, branch: Seq<char>, n: nat)
    ensures
        ({
            let upper = st.upper_server_id@;
            let realm = st.config.realm@;
            let l0 = "MESSAGE sip:"@ + upper + "@"@ + realm + " SIP/2.0"@;
            let l1 = "Via: SIP/2.0/"@ + via_transport_spec(st) + " "@ + st.public_ip@ + ":"@ + dec(
                st.config.local_port as nat,
            ) + ";rport;branch="@ + branch;
            let l2 = "From: <sip:"@ + st.config.device_id@ + "@"@ + realm + ">;tag="@ + st.local_tag@;
            let l3 = "To: <sip:"@ + upper + "@"@ + realm + ">"@;
            &&& message_header_text(st, seq, branch, n).len() >= l0.len()
            &&& exists|rest: Seq<char>|
                message_header_text(st, seq, branch, n) == l0 + crlf() + (l1 + crlf() + (l2 + crlf()
                    + (l3 + crlf() + rest)))
        }),
{
    lemma_message_literals();
    let upper = st.upper_server_id@;
    let realm = st.config.realm@;
    let rest = st.call_id_base@ + "\r\nCSeq: "@ + dec(seq as nat) + " MESSAGE\r\nX-GB-Ver: "@
        + gb_ver_spec(st.peer_version@)
        + "\r\nContent-Type: application/MANSCDP+xml\r\nMax-Forwards: 70\r\nUser-Agent: GBHub-Stress\r\nContent-Length: "@
        + dec(n) + "\r\n\r\n"@;
    lemma_message_regroup_pieces(
        "MESSAGE sip:"@,
        upper,
        "@"@,
        realm,
        " SIP/2.0"@,
        crlf(),
        "Via: SIP/2.0/"@,
        via_transport_spec(st),
        " "@,
        st.public_ip@,
        ":"@,
        dec(st.config.local_port as nat),
        ";rport;branch="@,
        branch,
        "From: <sip:"@,
        st.config.device_id@,
        ">;tag="@,
        st.local_tag@,
        "To: <sip:"@,
        ">"@,
        "Call-ID: "@,
        rest,
    );
    let m = message_header_text(st, seq, branch, n);
    assert(m == "MESSAGE sip:"@ + upper + "@"@ + realm + (" SIP/2.0"@ + crlf() + "Via: SIP/2.0/"@)
        + via_transport_spec(st) + " "@ + st.public_ip@ + ":"@ + dec(st.config.local_port as nat)
        + ";rport;branch="@ + branch + (crlf() + "From: <sip:"@) + st.config.device_id@ + "@"@
        + realm + ">;tag="@ + st.local_tag@ + (crlf() + "To: <sip:"@) + upper + "@"@ + realm + (
    ">"@ + crlf() + "Call-ID: "@) + rest) by {
        assert(m =~= "MESSAGE sip:"@ + upper + "@"@ + realm + (" SIP/2.0"@ + crlf()
            + "Via: SIP/2.0/"@) + via_transport_spec(st) + " "@ + st.public_ip@ + ":"@ + dec(
            st.config.local_port as nat,
        ) + ";rport;branch="@ + branch + (crlf() + "From: <sip:"@) + st.config.device_id@ + "@"@
            + realm + ">;tag="@ + st.local_tag@ + (crlf() + "To: <sip:"@) + upper + "@"@ + realm + (
        ">"@ + crlf() + "Call-ID: "@) + rest);
    }
    let l0 = "MESSAGE sip:"@ + upper + "@"@ + realm + " SIP/2.0"@;
    let l1 = "Via: SIP/2.0/"@ + via_transport_spec(st) + " "@ + st.public_ip@ + ":"@ + dec(
        st.config.local_port as nat,
    ) + ";rport;branch="@ + branch;
    let l2 = "From: <sip:"@ + st.config.device_id@ + "@"@ + realm + ">;tag="@ + st.local_tag@;
    let l3 = "To: <sip:"@ + upper + "@"@ + realm + ">"@;
    let r = "Call-ID: "@ + rest;
    assert(m == l0 + crlf() + (l1 + crlf() + (l2 + crlf() + (l3 + crlf() + r))));
}

/// A MESSAGE comes from the device and goes to the upstream server: read
/// back line by line, its request line addresses the upstream server in the
/// realm, its first header is the Via, its second the From naming the device
/// and its tag, and its third the To naming the upstream server. This holds
/// whenever none of the identifiers, addresses and the branch breaks a line.
#[verifier::spinoff_prover]
pub proof fn law_message_from_device(st: SipState, seq: u32, branch: Seq<char>, n: nat)
    requires
        single_line(st.upper_server_id@),
        single_line(st.config.realm@),
        single_line(st.public_ip@),
        single_line(branch),
        single_line(st.config.device_id@),
        single_line(st.local_tag@),
    ensures
        ({
            let m = message_header_text(st, seq, branch, n);
            let hs = header_lines_spec(m);
            &&& first_line_spec(m) == "MESSAGE sip:"@ + st.upper_server_id@ + "@"@ + st.config.realm@
                + " SIP/2.0"@
            &&& hs.len() >= 3
            &&& hs[0] == "Via: SIP/2.0/"@ + via_transport_spec(st) + " "@ + st.public_ip@ + ":"@ + dec(
                st.config.local_port as nat,
            ) + ";rport;branch="@ + branch
            &&& hs[1] == "From: <sip:"@ + st.config.device_id@ + "@"@ + st.config.realm@ + ">;tag="@
                + st.local_tag@
            &&& hs[2] == "To: <sip:"@ + st.upper_server_id@ + "@"@ + st.config.realm@ + ">"@
        }),
{
    lemma_message_literals();
    lemma_message_regroup(st, seq, branch, n);
    lemma_dec_single_line(st.config.local_port as nat);
    let upper = st.upper_server_id@;
    let realm = st.config.realm@;
    let tr = via_transport_spec(st);
    assert(single_line(tr));
    let l0a = "MESSAGE sip:"@ + upper;
    lemma_single_line_concat("MESSAGE sip:"@, upper);
    lemma_single_line_concat(l0a, "@"@);
    lemma_single_line_concat(l0a + "@"@, realm);
    lemma_single_line_concat(l0a + "@"@ + realm, " SIP/2.0"@);
    let l0 = l0a + "@"@ + realm + " SIP/2.0"@;
    let v1 = "Via: SIP/2.0/"@ + tr;
    lemma_single_line_concat("Via: SIP/2.0/"@, tr);
    lemma_single_line_concat(v1, " "@);
    lemma_single_line_concat(v1 + " "@, st.public_ip@);
    lemma_single_line_concat(v1 + " "@ + st.public_ip@, ":"@);
    let v2 = v1 + " "@ + st.public_ip@ + ":"@;
    lemma_single_line_concat(v2, dec(st.config.local_port as nat));
    let v3 = v2 + dec(st.config.local_port as nat);
    lemma_single_line_concat(v3, ";rport;branch="@);
    lemma_single_line_concat(v3 + ";rport;branch="@, branch);
    let l1 = v3 + ";rport;branch="@ + branch;
    let f1 = "From: <sip:"@ + st.config.device_id@;
    lemma_single_line_concat("From: <sip:"@, st.config.device_id@);
    lemma_single_line_concat(f1, "@"@);
    lemma_single_line_concat(f1 + "@"@, realm);
    lemma_single_line_concat(f1 + "@"@ + realm, ">;tag="@);
    lemma_single_line_concat(f1 + "@"@ + realm + ">;tag="@, st.local_tag@);
    let l2 = f1 + "@"@ + realm + ">;tag="@ + st.local_tag@;
    let t1 = "To: <sip:"@ + upper;
    lemma_single_line_concat("To: <sip:"@, upper);
    lemma_single_line_concat(t1, "@"@);
    lemma_single_line_concat(t1 + "@"@, realm);
    lemma_single_line_concat(t1 + "@"@ + realm, ">"@);
    let l3 = t1 + "@"@ + realm + ">"@;
    lemma_no_cr(l0);
    lemma_no_cr(l1);
    lemma_no_cr(l2);
    lemma_no_cr(l3);
    let rest = choose|rest: Seq<char>|
        message_header_text(st, seq, branch, n) == l0 + crlf() + (l1 + crlf() + (l2 + crlf() + (l3
            + crlf() + rest)));
    let x3 = l3 + crlf() + rest;
    let x2 = l2 + crlf() + x3;
    let x1 = l1 + crlf() + x2;
    let m = l0 + crlf() + x1;
    lemma_split_line(l0, x1);
    lemma_split_line(l1, x2);
    lemma_split_line(l2, x3);
    lemma_split_line(l3, rest);
    let top = seq![l1, l2, l3];
    let r = split(rest, crlf());
    assert(split(m, crlf()) =~= seq![l0] + top + r);
    assert(split(m, crlf()).skip(1) =~= top + r);
    lemma_nonempty_lines_concat(top, r);
    lemma_nonempty_lines_all(top);
}

} // verus!
