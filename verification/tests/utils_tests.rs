use gbhub_stress::error::SipError;
use gbhub_stress::sip::utils::{
    encode_xml, extract_xml_text, gb_ver, get_header, md5_hash, parse_sdp, parse_sip_lines,
    parse_www_authenticate, sha256_hash, xml_header, LINESEP,
};

fn hs(lines: &[&str]) -> Vec<String> {
    lines.iter().map(|s| s.to_string()).collect()
}

#[test]
fn gb_ver_follows_peer_version() {
    assert_eq!(gb_ver("2022"), "3.0");
    assert_eq!(gb_ver("3.0"), "3.0");
    assert_eq!(gb_ver("2016"), "2.0");
    assert_eq!(gb_ver(""), "2.0");
}

#[test]
fn xml_header_exact() {
    assert_eq!(xml_header("2022"), "<?xml version=\"1.0\" encoding=\"GB18030\"?>\r\n");
    assert_eq!(xml_header("3.0"), "<?xml version=\"1.0\" encoding=\"GB18030\"?>\r\n");
    assert_eq!(xml_header("2016"), "<?xml version=\"1.0\" encoding=\"GB2312\"?>\r\n");
    assert_eq!(LINESEP, "\r\n");
}

#[test]
fn encode_xml_ascii_is_unchanged() {
    assert_eq!(encode_xml("2016", "<SN>1</SN>"), b"<SN>1</SN>".to_vec());
    assert_eq!(encode_xml("2022", "<SN>1</SN>"), b"<SN>1</SN>".to_vec());
}

#[test]
fn encode_xml_chinese_text() {
    assert_eq!(encode_xml("2016", "中文"), vec![0xD6, 0xD0, 0xCE, 0xC4]);
    assert_eq!(encode_xml("2022", "中文"), vec![0xD6, 0xD0, 0xCE, 0xC4]);
}

#[test]
fn encode_xml_version_selects_encoding() {
    assert_eq!(encode_xml("2016", "€"), vec![0x80]);
    assert_eq!(encode_xml("2022", "€"), vec![0xA2, 0xE3]);
}

#[test]
fn md5_hash_known_vector() {
    assert_eq!(md5_hash("abc"), "900150983cd24fb0d6963f7d28e17f72");
    assert_eq!(md5_hash(""), "d41d8cd98f00b204e9800998ecf8427e");
}

#[test]
fn sha256_hash_known_vector() {
    assert_eq!(
        sha256_hash("abc"),
        "ba7816bf8f01cfea414140de5dae2223b00361a396177a9cb410ff61f20015ad"
    );
}

#[test]
fn parse_sip_lines_splits_and_drops_empty() {
    let (first, headers) =
        parse_sip_lines("INVITE sip:a@b SIP/2.0\r\nVia: x\r\n\r\nFrom: y\r\n\r\n").unwrap();
    assert_eq!(first, "INVITE sip:a@b SIP/2.0");
    assert_eq!(headers, hs(&["Via: x", "From: y"]));
}

#[test]
fn parse_sip_lines_single_line_and_empty() {
    let (first, headers) = parse_sip_lines("OPTIONS sip:x SIP/2.0").unwrap();
    assert_eq!(first, "OPTIONS sip:x SIP/2.0");
    assert!(headers.is_empty());
    let (first, headers) = parse_sip_lines("").unwrap();
    assert_eq!(first, "");
    assert!(headers.is_empty());
}

#[test]
fn parse_sip_lines_keeps_bare_newlines_inside_lines() {
    let (first, headers) = parse_sip_lines("A\nB\r\nC").unwrap();
    assert_eq!(first, "A\nB");
    assert_eq!(headers, hs(&["C"]));
}

#[test]
fn get_header_ignores_case_and_trims() {
    let h = hs(&["via: SIP/2.0/UDP 1.2.3.4:5060 ", "Call-ID:   abc@host  "]);
    assert_eq!(get_header(&h, "Via"), Some("SIP/2.0/UDP 1.2.3.4:5060"));
    assert_eq!(get_header(&h, "CALL-ID"), Some("abc@host"));
    assert_eq!(get_header(&h, "To"), None);
}

#[test]
fn get_header_matches_name_prefix_and_first_colon() {
    let h = hs(&["Content-Length: 10", "CSeq: 2 REGISTER"]);
    assert_eq!(get_header(&h, "Content"), Some("10"));
    let h = hs(&["Via: a:b:c"]);
    assert_eq!(get_header(&h, "Via"), Some("a:b:c"));
}

#[test]
fn get_header_first_match_without_colon_gives_none() {
    let h = hs(&["Via", "Via: x"]);
    assert_eq!(get_header(&h, "Via"), None);
}

#[test]
fn extract_xml_text_trims_spaces_and_quotes() {
    let x = "<Query><SN> \"17\" </SN><DeviceID>'34020000001320000001'</DeviceID></Query>";
    assert_eq!(extract_xml_text(x, "SN"), Some("17"));
    assert_eq!(extract_xml_text(x, "DeviceID"), Some("34020000001320000001"));
}

#[test]
fn extract_xml_text_missing_tags() {
    assert_eq!(extract_xml_text("<SN>1", "SN"), None);
    assert_eq!(extract_xml_text("SN</SN>", "SN"), None);
    assert_eq!(extract_xml_text("<A>x</A>", "SN"), None);
    assert_eq!(extract_xml_text("<SN></SN>", "SN"), Some(""));
}

#[test]
fn extract_xml_text_first_element() {
    assert_eq!(extract_xml_text("<SN>1</SN><SN>2</SN>", "SN"), Some("1"));
}

#[test]
fn parse_www_authenticate_reads_params() {
    let p = parse_www_authenticate(
        "Digest realm=\"3402000000\", nonce=\"abc123\", algorithm=MD5, qop=\"auth\"",
    );
    assert_eq!(p.get("realm").map(|s| s.as_str()), Some("3402000000"));
    assert_eq!(p.get("nonce").map(|s| s.as_str()), Some("abc123"));
    assert_eq!(p.get("algorithm").map(|s| s.as_str()), Some("MD5"));
    assert_eq!(p.get("qop").map(|s| s.as_str()), Some("auth"));
    assert_eq!(p.get("opaque"), None);
}

#[test]
fn parse_www_authenticate_lowercases_keys_later_wins() {
    let p = parse_www_authenticate("Digest NONCE=\"a\", Realm=r, nonce=\"b\", junk");
    assert_eq!(p.get("nonce").map(|s| s.as_str()), Some("b"));
    assert_eq!(p.get("realm").map(|s| s.as_str()), Some("r"));
    assert_eq!(p.get("NONCE"), None);
}

#[test]
fn parse_www_authenticate_strips_repeated_prefix() {
    let p = parse_www_authenticate("Digest Digest nonce=x");
    assert_eq!(p.get("nonce").map(|s| s.as_str()), Some("x"));
}

#[test]
fn parse_www_authenticate_split_qop_list() {
    let p = parse_www_authenticate("Digest qop=\"auth,auth-int\", nonce=n");
    assert_eq!(p.get("qop").map(|s| s.as_str()), Some("auth"));
}

const OFFER: &str = "v=0\r\no=34020000002000000001 0 0 IN IP4 192.168.1.10\r\ns=Play\r\nc=IN IP4 192.168.1.10\r\nt=0 0\r\nm=video 30000 RTP/AVP 96\r\na=recvonly\r\na=rtpmap:96 PS/90000\r\ny=0100000001\r\n";

#[test]
fn parse_sdp_reads_udp_offer() {
    let r = parse_sdp(OFFER).unwrap();
    assert_eq!(r, ("192.168.1.10".to_string(), 30000, 100000001, 1, false, false));
}

#[test]
fn parse_sdp_reads_tcp_passive_offer() {
    let body = "c=IN IP4 10.0.0.1\nm=video 4000 TCP/RTP/AVP 96\n  a=setup:passive  \ny=123\n";
    let r = parse_sdp(body).unwrap();
    assert_eq!(r, ("10.0.0.1".to_string(), 4000, 123, 0, false, true));
}

#[test]
fn parse_sdp_refused_medium() {
    let body = "c=IN IP4 10.0.0.1\r\nm=video -1 RTP/AVP 96\r\ny=5\r\n";
    assert_eq!(parse_sdp(body).unwrap(), (String::new(), 0, 0, 0, true, false));
}

#[test]
fn parse_sdp_bad_ssrc_is_zero() {
    let body = "c=IN IP4 1.1.1.1\r\nm=video 5 RTP/AVP 96\r\ny=abc\r\ny=7\r\n";
    assert_eq!(parse_sdp(body).unwrap().2, 0);
    let body = "c=IN IP4 1.1.1.1\r\nm=video 5 RTP/AVP 96\r\n";
    assert_eq!(parse_sdp(body).unwrap().2, 0);
}

#[test]
fn parse_sdp_errors() {
    assert_eq!(parse_sdp("m=video 1 RTP/AVP 96"), Err(SipError::NoConnectionLine));
    assert_eq!(parse_sdp("c=IN IP4 1.1.1.1"), Err(SipError::NoMediaLine));
    assert_eq!(
        parse_sdp("c=IN IP4 1.1.1.1\r\nm=video 30000"),
        Err(SipError::InvalidMediaLine("m=video 30000".to_string()))
    );
    assert_eq!(
        parse_sdp("c=IN IP4 1.1.1.1\r\nm=video x RTP/AVP 96"),
        Err(SipError::InvalidMediaPort)
    );
    assert_eq!(
        parse_sdp("c=IN IP4 1.1.1.1\r\nm=video 70000 RTP/AVP 96"),
        Err(SipError::MediaPortOutOfRange(70000))
    );
    assert_eq!(
        parse_sdp("c=IN IP4 1.1.1.1\r\nm=video -5 RTP/AVP 96"),
        Err(SipError::MediaPortOutOfRange(-5))
    );
    assert_eq!(
        parse_sdp("c=IN IP4 1.1.1.1\r\nm=video 99999999999 RTP/AVP 96"),
        Err(SipError::InvalidMediaPort)
    );
}

#[test]
fn parse_sdp_address_is_last_field() {
    let body = "c=\r\nm=video 1 RTP/AVP 96";
    assert_eq!(parse_sdp(body).unwrap().0, "c=");
    let body = "c=IN IP4 1.1.1.1 extra\r\nm=video +8 RTP/AVP 96";
    let r = parse_sdp(body).unwrap();
    assert_eq!((r.0.as_str(), r.1), ("extra", 8));
}

#[test]
fn message_head_reads_back() {
    let first = "MESSAGE sip:a@b SIP/2.0";
    let hs = vec!["Via: x".to_string(), "CSeq: 2 MESSAGE".to_string(), "a\rb".to_string()];
    let text = format!(
        "{}{}\r\n\r\n",
        first,
        hs.iter().map(|h| format!("\r\n{}", h)).collect::<String>()
    );
    assert_eq!(parse_sip_lines(&text).unwrap(), (first.to_string(), hs));
    assert_eq!(parse_sip_lines("X\r\n\r\n").unwrap(), ("X".to_string(), vec![]));
}

#[test]
fn challenge_parameter_names_fold_to_lower_case() {
    let p = parse_www_authenticate("Digest Algorithm=SHA-256, NONCE=\"n1\", Realm=r");
    assert_eq!(p.get("algorithm").map(|s| s.as_str()), Some("SHA-256"));
    assert_eq!(p.get("nonce").map(|s| s.as_str()), Some("n1"));
    assert_eq!(p.get("realm").map(|s| s.as_str()), Some("r"));
    assert!(p.get("NONCE").is_none());
}
