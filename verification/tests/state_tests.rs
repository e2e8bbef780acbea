use gbhub_stress::error::SipError;
use gbhub_stress::sip::config::SipConfig;
use gbhub_stress::sip::register::{authorization_header, digest_hash, needs_auth_retry};
use gbhub_stress::sip::state::{Incoming, SipState};
use gbhub_stress::sip::utils::{extract_xml_text, get_header, parse_sip_lines};
use gbhub_stress::zlm_client::ZlmClient;
use sha2::Digest;

fn config(transport: &str, server_id: Option<&str>) -> SipConfig {
    SipConfig {
        local_ip: "192.168.1.2".to_string(),
        local_port: 15001,
        sip_server: "192.168.1.100:5060".to_string(),
        sip_server_ip: "192.168.1.100".to_string(),
        device_id: "34020000001320000001".to_string(),
        channel_id: "34020000001320000002".to_string(),
        realm: "3402000000".to_string(),
        password: "123456".to_string(),
        transport: transport.to_string(),
        server_id: server_id.map(|s| s.to_string()),
    }
}

fn state_with(transport: &str, public_ip: &str) -> SipState {
    SipState::new(
        config(transport, Some("34020000002000000001")),
        ZlmClient::new("http://127.0.0.1:9080".to_string(), "sec".to_string()),
        "rtp".to_string(),
        "test".to_string(),
        public_ip.to_string(),
        30,
        3600,
    )
}

fn state() -> SipState {
    state_with("UDP", "1.2.3.4")
}

fn md5_hex(s: &str) -> String {
    format!("{:x}", md5::compute(s.as_bytes()))
}

fn sha_hex(s: &str) -> String {
    format!("{:x}", sha2::Sha256::digest(s.as_bytes()))
}

/// The branch of the Via header, checked to be `z9hG4bK-` and eight hex digits.
fn branch_of(msg: &str) -> String {
    let i = msg.find("branch=").unwrap() + "branch=".len();
    let b = &msg[i..i + 16];
    assert!(b.starts_with("z9hG4bK-"));
    assert!(b[8..].chars().all(|c| c.is_ascii_hexdigit() && !c.is_ascii_uppercase()));
    b.to_string()
}

#[test]
fn new_state_starts_fresh() {
    let st = state();
    assert_eq!(st.cseq, 1);
    assert!(st.nonce.is_none());
    for id in [&st.local_tag, &st.call_id_base] {
        let c: Vec<char> = id.chars().collect();
        assert_eq!(c.len(), 36);
        for (i, ch) in c.iter().enumerate() {
            if [8, 13, 18, 23].contains(&i) {
                assert_eq!(*ch, '-');
            } else {
                assert!(ch.is_ascii_hexdigit() && !ch.is_ascii_uppercase());
            }
        }
        assert_eq!(c[14], '4');
        assert!("89ab".contains(c[19]));
    }
    assert_ne!(st.local_tag, st.call_id_base);
    assert_eq!(st.peer_version, "2016");
    assert_eq!(st.upper_server_id, "34020000002000000001");
    assert_eq!(st.local_tag.len(), 36);
    assert_eq!(st.call_id_base.len(), 36);
    assert_ne!(st.local_tag, st.call_id_base);
    assert_eq!(st.registered_expires, 3600);
    assert_eq!(st.channel_id, "34020000001320000002");
    let st2 = SipState::new(
        config("UDP", None),
        ZlmClient::new("a".to_string(), "b".to_string()),
        "rtp".to_string(),
        "test".to_string(),
        String::new(),
        30,
        60,
    );
    assert_eq!(st2.upper_server_id, "34020000001320000001");
}

#[test]
fn via_transport_reads_tcp_in_any_case() {
    assert_eq!(state_with("tcp", "").via_transport(), "TCP");
    assert_eq!(state_with("TcP", "").via_transport(), "TCP");
    assert_eq!(state_with("UDP", "").via_transport(), "UDP");
    assert_eq!(state_with("sctp", "").via_transport(), "UDP");
}

#[test]
fn register_message_exact() {
    let st = state();
    let m = st.register_message("192.168.1.100:5060", 7, 3600, "z9hG4bK-abcd", "");
    let expected = format!(
        "REGISTER sip:34020000002000000001@192.168.1.100:5060 SIP/2.0\r\n\
         Via: SIP/2.0/UDP 192.168.1.2:15001;rport;branch=z9hG4bK-abcd\r\n\
         From: <sip:34020000001320000001@3402000000>;tag={}\r\n\
         To: <sip:34020000002000000001@192.168.1.100:5060>\r\n\
         Call-ID: {}\r\n\
         CSeq: 7 REGISTER\r\n\
         X-GB-Ver: 2.0\r\n\
         Contact: <sip:34020000001320000001@1.2.3.4:15001>\r\n\
         Max-Forwards: 70\r\n\
         User-Agent: GBHub-Stress\r\n\
         Expires: 3600\r\n\
         Content-Length: 0\r\n\r\n",
        st.local_tag, st.call_id_base
    );
    assert_eq!(m, expected);
}

#[test]
fn register_message_contact_falls_back_to_local_ip() {
    let st = state_with("UDP", "");
    let m = st.register_message("d", 1, 60, "b", "Authorization: X\r\n");
    assert!(m.contains("Contact: <sip:34020000001320000001@192.168.1.2:15001>\r\nAuthorization: X\r\nMax-Forwards: 70\r\n"));
}

#[test]
fn send_register_without_auth() {
    let mut st = state();
    let m = st.send_register_to("192.168.1.100:5060", 3600, false).unwrap();
    assert_eq!(st.cseq, 2);
    let b = branch_of(&m);
    assert_eq!(m, st.register_message("192.168.1.100:5060", 1, 3600, &b, ""));
    let m2 = st.send_register_to("192.168.1.100:5060", 0, false).unwrap();
    assert!(m2.contains("CSeq: 2 REGISTER\r\n"));
    assert!(m2.contains("Expires: 0\r\n"));
    assert_eq!(st.cseq, 3);
}

#[test]
fn send_register_with_auth_needs_challenge() {
    let mut st = state();
    assert_eq!(
        st.send_register_to("192.168.1.100:5060", 3600, true),
        Err(SipError::NoChallenge)
    );
    assert_eq!(st.cseq, 2);
    st.nonce = Some("Digest realm=\"x\"".to_string());
    assert_eq!(
        st.send_register_to("192.168.1.100:5060", 3600, true),
        Err(SipError::NoNonce)
    );
    assert_eq!(st.cseq, 3);
}

#[test]
fn send_register_over_tcp_is_refused() {
    let mut st = state_with("tcp", "1.2.3.4");
    assert_eq!(
        st.send_register_to("192.168.1.100:5060", 3600, false),
        Err(SipError::TcpUnsupported)
    );
    assert_eq!(st.cseq, 2);
}

#[test]
fn authorization_md5_without_qop() {
    let mut st = state();
    st.nonce = Some("Digest realm=\"3402000000\", nonce=\"n1\"".to_string());
    let line = st.authorization("192.168.1.100:5060", "cn").unwrap();
    let uri = "sip:34020000002000000001@192.168.1.100:5060";
    let ha1 = md5_hex("34020000001320000001:3402000000:123456");
    let ha2 = md5_hex(&format!("REGISTER:{}", uri));
    let response = md5_hex(&format!("{}:n1:{}", ha1, ha2));
    assert_eq!(
        line,
        format!(
            "Authorization: Digest username=\"34020000001320000001\", realm=\"3402000000\", nonce=\"n1\", uri=\"{}\", response=\"{}\", algorithm=MD5\r\n",
            uri, response
        )
    );
}

#[test]
fn authorization_sha256_with_qop_auth() {
    let mut st = state();
    st.nonce = Some(
        "Digest realm=\"3402000000\", nonce=\"n2\", algorithm=sha-256, qop=\"auth\"".to_string(),
    );
    let line = st.authorization("192.168.1.100:5060", "0a4f113b").unwrap();
    let uri = "sip:34020000002000000001@192.168.1.100:5060";
    let ha1 = sha_hex("34020000001320000001:3402000000:123456");
    let ha2 = sha_hex(&format!("REGISTER:{}", uri));
    let response = sha_hex(&format!("{}:n2:00000001:0a4f113b:auth:{}", ha1, ha2));
    assert_eq!(
        line,
        format!(
            "Authorization: Digest username=\"34020000001320000001\", realm=\"3402000000\", nonce=\"n2\", uri=\"{}\", response=\"{}\", algorithm=SHA-256, cnonce=\"0a4f113b\", nc=00000001, qop=auth\r\n",
            uri, response
        )
    );
}

#[test]
fn authorization_unknown_algorithm_uses_md5() {
    let mut st = state();
    st.nonce = Some("Digest nonce=n, algorithm=SHA-512".to_string());
    let line = st.authorization("d", "c").unwrap();
    assert!(line.ends_with("algorithm=MD5\r\n"));
}

#[test]
fn send_register_with_challenge_carries_authorization() {
    let mut st = state();
    st.nonce = Some("Digest realm=\"3402000000\", nonce=\"n1\"".to_string());
    let m = st.send_register_to("192.168.1.100:5060", 3600, true).unwrap();
    let auth = st.authorization("192.168.1.100:5060", "unused").unwrap();
    let b = branch_of(&m);
    assert_eq!(m, st.register_message("192.168.1.100:5060", 1, 3600, &b, &auth));
}

#[test]
fn digest_helpers() {
    assert_eq!(digest_hash(false, "abc"), "900150983cd24fb0d6963f7d28e17f72");
    assert_eq!(digest_hash(true, "abc"), sha_hex("abc"));
    assert_eq!(
        authorization_header("u", "r", "n", "sip:x", "resp", true, Some("c")),
        "Authorization: Digest username=\"u\", realm=\"r\", nonce=\"n\", uri=\"sip:x\", response=\"resp\", algorithm=SHA-256, cnonce=\"c\", nc=00000001, qop=auth\r\n"
    );
}

#[test]
fn needs_auth_retry_cases() {
    assert!(needs_auth_retry("401 Unauthorized"));
    assert!(needs_auth_retry("got 407"));
    assert!(!needs_auth_retry("No UDP socket"));
    assert!(!needs_auth_retry("40 1"));
}

fn request_headers() -> Vec<String> {
    vec![
        "Via: SIP/2.0/UDP 192.168.1.100:5060;branch=z9hG4bK1".to_string(),
        "From: <sip:a@b>;tag=1".to_string(),
        "To: <sip:c@d>".to_string(),
        "Call-ID: cid1".to_string(),
        "CSeq: 3 OPTIONS".to_string(),
    ]
}

#[test]
fn reply_response_echoes_request() {
    let st = state();
    let r = st.reply_response("200 OK", &request_headers(), None, None).unwrap();
    assert_eq!(
        r,
        "SIP/2.0 200 OK\r\nVia: SIP/2.0/UDP 192.168.1.100:5060;branch=z9hG4bK1\r\nFrom: <sip:a@b>;tag=1\r\nTo: <sip:c@d>\r\nCall-ID: cid1\r\nCSeq: 3 OPTIONS\r\nX-GB-Ver: 2.0\r\nUser-Agent: GBHub-Stress\r\nContent-Length: 0\r\n\r\n"
    );
}

#[test]
fn reply_response_with_body_and_tag() {
    let st = state();
    let r = st
        .reply_response("200 OK", &request_headers(), Some("v=0\r\n中"), Some("tg"))
        .unwrap();
    assert!(r.contains("To: <sip:c@d>;tag=tg\r\n"));
    assert!(r.ends_with("Content-Type: application/sdp\r\nContent-Length: 8\r\n\r\nv=0\r\n中"));
}

#[test]
fn reply_response_missing_headers() {
    let st = state();
    let mut h = request_headers();
    h.remove(4);
    assert_eq!(
        st.reply_response("200 OK", &h, None, None),
        Err(SipError::MissingHeader("CSeq".to_string()))
    );
    assert_eq!(
        st.reply_response("200 OK", &[], None, None),
        Err(SipError::MissingHeader("Via".to_string()))
    );
}

#[test]
fn heartbeat_packet() {
    let mut st = state();
    let p = st.heartbeat();
    assert_eq!(st.cseq, 2);
    let text = String::from_utf8(p).unwrap();
    let b = branch_of(&text);
    let body = "<?xml version=\"1.0\" encoding=\"GB2312\"?>\r\n<Notify>\r\n<CmdType>Keepalive</CmdType>\r\n<SN>1</SN>\r\n<DeviceID>34020000001320000001</DeviceID>\r\n<Status>OK</Status>\r\n</Notify>\r\n";
    let header = st.message_header(1, &b, body.len());
    assert_eq!(text, format!("{}{}", header, body));
    assert!(header.starts_with(
        "MESSAGE sip:34020000002000000001@3402000000 SIP/2.0\r\nVia: SIP/2.0/UDP 1.2.3.4:15001;rport;branch="
    ));
    assert!(header.contains("CSeq: 1 MESSAGE\r\nX-GB-Ver: 2.0\r\nContent-Type: application/MANSCDP+xml\r\n"));
    assert!(header.ends_with(&format!("Content-Length: {}\r\n\r\n", body.len())));
}

#[test]
fn send_message_to_encodes_body() {
    let mut st = state();
    let p = st.send_message_to("<Name>中文</Name>");
    let body = [b"<Name>".to_vec(), vec![0xD6, 0xD0, 0xCE, 0xC4], b"</Name>".to_vec()].concat();
    assert!(p.ends_with(&body));
    let header = String::from_utf8(p[..p.len() - body.len()].to_vec()).unwrap();
    assert!(header.ends_with("Content-Length: 17\r\n\r\n"));
}

#[test]
fn handle_catalog_builds_response() {
    let mut st = state();
    let p = st.handle_catalog("<Query><CmdType>Catalog</CmdType><SN>17</SN><DeviceID>340200</DeviceID></Query>");
    let text = String::from_utf8(p).unwrap();
    let body = "<?xml version=\"1.0\" encoding=\"GB2312\"?>\r\n<Response>\r\n<CmdType>Catalog</CmdType>\r\n<SN>17</SN>\r\n<DeviceID>340200</DeviceID>\r\n<SumNum>1</SumNum>\r\n<DeviceList Num=\"1\">\r\n<Item>\r\n<DeviceID>34020000001320000002</DeviceID>\r\n<Name>Channel-34020000001320000002</Name>\r\n<Parental>0</Parental>\r\n<ParentID>340200</ParentID>\r\n<Status>ON</Status>\r\n</Item>\r\n</DeviceList>\r\n</Response>\r\n";
    assert!(text.ends_with(body));
    assert_eq!(st.catalog_body("<Query/>"), body.replace("<SN>17</SN>", "<SN>1</SN>").replace("340200<", "34020000001320000001<"));
    assert_eq!(st.cseq, 2);
}

const OPTIONS: &str = "OPTIONS sip:34020000001320000001@3402000000 SIP/2.0\r\nVia: SIP/2.0/UDP 192.168.1.100:5060;branch=z9hG4bK1\r\nFrom: <sip:a@b>;tag=1\r\nTo: <sip:c@d>\r\nCall-ID: cid1\r\nCSeq: 3 OPTIONS\r\nX-GB-Ver: 3.0\r\nContent-Length: 0\r\n\r\n";

#[test]
fn process_incoming_ignores_other_senders() {
    let mut st = state();
    assert!(matches!(st.process_incoming("10.9.9.9", OPTIONS), Ok(Incoming::Ignore)));
    assert_eq!(st.peer_version, "2016");
}

#[test]
fn process_incoming_options_negotiates_version() {
    let mut st = state();
    match st.process_incoming("192.168.1.100", OPTIONS) {
        Ok(Incoming::Send(r)) => {
            assert_eq!(
                r,
                "SIP/2.0 200 OK\r\nVia: SIP/2.0/UDP 192.168.1.100:5060;branch=z9hG4bK1\r\nFrom: <sip:a@b>;tag=1\r\nTo: <sip:c@d>\r\nCall-ID: cid1\r\nCSeq: 3 OPTIONS\r\nX-GB-Ver: 3.0\r\nUser-Agent: GBHub-Stress\r\nContent-Length: 0\r\n\r\n"
            );
        }
        _ => panic!("expected a reply"),
    }
    assert_eq!(st.peer_version, "2022");
    assert_eq!(st.cseq, 1);
}

#[test]
fn process_incoming_challenge_registers_again() {
    let mut st = state();
    let resp = "SIP/2.0 401 Unauthorized\r\nVia: v\r\nWWW-Authenticate: Digest realm=\"3402000000\", nonce=\"n1\"\r\n\r\n";
    match st.process_incoming("192.168.1.100", resp) {
        Ok(Incoming::SendToServer(m)) => {
            let auth = st.authorization("192.168.1.100:5060", "x").unwrap();
            assert!(m.contains(&auth));
            assert!(m.contains("CSeq: 1 REGISTER\r\n"));
        }
        _ => panic!("expected a REGISTER"),
    }
    assert_eq!(st.nonce.as_deref(), Some("Digest realm=\"3402000000\", nonce=\"n1\""));
    assert_eq!(st.cseq, 2);
}

#[test]
fn process_incoming_proxy_challenge_and_other_responses() {
    let mut st = state();
    let resp = "SIP/2.0 407 Proxy Authentication Required\r\nProxy-Authenticate: Digest nonce=\"p\"\r\n\r\n";
    assert!(matches!(st.process_incoming("192.168.1.100", resp), Ok(Incoming::SendToServer(_))));
    assert_eq!(st.nonce.as_deref(), Some("Digest nonce=\"p\""));
    let ok = "SIP/2.0 200 OK\r\nX-GB-Ver: 3.0\r\n\r\n";
    assert!(matches!(st.process_incoming("192.168.1.100", ok), Ok(Incoming::Ignore)));
    assert_eq!(st.peer_version, "2016");
    let bare = "SIP/2.0 401 Unauthorized\r\n\r\n";
    assert!(matches!(st.process_incoming("192.168.1.100", bare), Ok(Incoming::Ignore)));
    assert_eq!(st.cseq, 2);
}

#[test]
fn process_incoming_dispatches_invite_and_bye() {
    let mut st = state();
    let inv = "INVITE sip:x SIP/2.0\r\nCall-ID: c1\r\n\r\nv=0\r\nm=video 1 RTP/AVP 96\r\n";
    match st.process_incoming("192.168.1.100", inv) {
        Ok(Incoming::Invite { headers, body }) => {
            assert_eq!(headers, vec!["Call-ID: c1".to_string(), "v=0".to_string(), "m=video 1 RTP/AVP 96".to_string()]);
            assert_eq!(body, "v=0\r\nm=video 1 RTP/AVP 96\r\n");
        }
        _ => panic!("expected an INVITE"),
    }
    match st.process_incoming("192.168.1.100", "BYE sip:x SIP/2.0\r\nCall-ID: c1\r\n\r\n") {
        Ok(Incoming::Bye { headers }) => assert_eq!(headers, vec!["Call-ID: c1".to_string()]),
        _ => panic!("expected a BYE"),
    }
    assert!(matches!(st.process_incoming("192.168.1.100", "ACK sip:x SIP/2.0\r\n\r\n"), Ok(Incoming::Ignore)));
}

#[test]
fn process_incoming_catalog_and_other_messages() {
    let mut st = state();
    let q = "MESSAGE sip:x SIP/2.0\r\nVia: v\r\nFrom: f\r\nTo: t\r\nCall-ID: c\r\nCSeq: 1 MESSAGE\r\n\r\n<?xml version=\"1.0\"?>\r\n<Query>\r\n<CmdType>Catalog</CmdType>\r\n<SN>17</SN>\r\n</Query>\r\n";
    match st.process_incoming("192.168.1.100", q) {
        Ok(Incoming::SendBytes(p)) => {
            let text = String::from_utf8(p).unwrap();
            assert!(text.contains("<SN>17</SN>"));
            assert!(text.contains("CSeq: 1 MESSAGE\r\n"));
        }
        _ => panic!("expected a catalog response"),
    }
    assert_eq!(st.cseq, 2);
    let other = "MESSAGE sip:x SIP/2.0\r\nVia: v\r\nFrom: f\r\nTo: t\r\nCall-ID: c\r\nCSeq: 2 MESSAGE\r\n\r\n<Notify/>";
    match st.process_incoming("192.168.1.100", other) {
        Ok(Incoming::Send(r)) => assert!(r.starts_with("SIP/2.0 200 OK\r\n")),
        _ => panic!("expected 200 OK"),
    }
}

#[test]
fn process_incoming_unsupported_method() {
    let mut st = state();
    let sub = "SUBSCRIBE sip:x SIP/2.0\r\nVia: v\r\nFrom: f\r\nTo: t\r\nCall-ID: c\r\nCSeq: 1 SUBSCRIBE\r\n\r\n";
    match st.process_incoming("192.168.1.100", sub) {
        Ok(Incoming::Send(r)) => assert!(r.starts_with("SIP/2.0 501 Not Implemented\r\n")),
        _ => panic!("expected 501"),
    }
    let missing = "CANCEL sip:x SIP/2.0\r\nVia: v\r\n\r\n";
    assert!(matches!(
        st.process_incoming("192.168.1.100", missing),
        Err(SipError::MissingHeader(ref h)) if h == "From"
    ));
}

#[test]
fn reply_round_trip_gives_dialog_back() {
    let st = state();
    let request = "INVITE sip:x@y SIP/2.0\r\nvia:  SIP/2.0/UDP 10.0.0.1:5060;branch=z9hG4bKa \r\nFROM: <sip:u@v>;tag=9\r\nTo: <sip:w@z>\r\ncall-id: abc@host\r\nCSeq:  7 INVITE\r\n\r\n";
    let (_, hs) = parse_sip_lines(request).unwrap();
    let reply = st
        .reply_response("200 OK", &hs, Some("v=0\r\nCall-ID: not-this\r\n"), Some("t1"))
        .unwrap();
    let (first, rs) = parse_sip_lines(&reply).unwrap();
    assert_eq!(first, "SIP/2.0 200 OK");
    assert_eq!(get_header(&rs, "Via"), Some("SIP/2.0/UDP 10.0.0.1:5060;branch=z9hG4bKa"));
    assert_eq!(get_header(&rs, "From"), Some("<sip:u@v>;tag=9"));
    assert_eq!(get_header(&rs, "To"), Some("<sip:w@z>;tag=t1"));
    assert_eq!(get_header(&rs, "Call-ID"), Some("abc@host"));
    assert_eq!(get_header(&rs, "CSeq"), Some("7 INVITE"));
}

#[test]
fn catalog_response_answers_the_query_sn() {
    let mut st = state();
    let q = "<Query><SN> \"42\" </SN><CmdType>Catalog</CmdType></Query>";
    let r = st.catalog_body(q);
    assert_eq!(extract_xml_text(&r, "SN"), Some("42"));
    assert_eq!(extract_xml_text(&st.catalog_body("<Query/>"), "SN"), Some("1"));
    st.peer_version = "2022".to_string();
    let r = st.catalog_body("<SN>7</SN>");
    assert!(r.starts_with("<?xml version=\"1.0\" encoding=\"GB18030\"?>"));
    assert_eq!(extract_xml_text(&r, "SN"), Some("7"));
}
