use gbhub_stress::error::SipError;
use gbhub_stress::sip::config::SipConfig;
use gbhub_stress::sip::invite::{InviteCall, InviteNext, MediaStep};
use gbhub_stress::sip::session::{get_session, SessionInfo, SessionStore, add_session};
use gbhub_stress::sip::state::SipState;
use gbhub_stress::sip::utils::parse_sdp;
use gbhub_stress::stats::Stats;
use gbhub_stress::zlm_client::{MediaEntry, ZlmClient};

fn state() -> SipState {
    SipState::new(
        SipConfig {
            local_ip: "192.168.1.2".to_string(),
            local_port: 15001,
            sip_server: "192.168.1.100:5060".to_string(),
            sip_server_ip: "192.168.1.100".to_string(),
            device_id: "34020000001320000001".to_string(),
            channel_id: "34020000001320000002".to_string(),
            realm: "3402000000".to_string(),
            password: "123456".to_string(),
            transport: "UDP".to_string(),
            server_id: None,
        },
        ZlmClient::new("http://127.0.0.1:9080".to_string(), "sec".to_string()),
        "rtp".to_string(),
        "test".to_string(),
        "1.2.3.4".to_string(),
        30,
        3600,
    )
}

fn headers() -> Vec<String> {
    vec![
        "Via: SIP/2.0/UDP 192.168.1.100:5060;branch=z9hG4bK9".to_string(),
        "From: <sip:s@d>;tag=9".to_string(),
        "To: <sip:34020000001320000002@d>".to_string(),
        "Call-ID: call-1".to_string(),
        "CSeq: 20 INVITE".to_string(),
    ]
}

const OFFER: &str = "v=0\r\nc=IN IP4 192.168.1.100\r\nm=video 30000 TCP/RTP/AVP 96\r\na=setup:passive\r\ny=0100000001\r\n";

fn entry(app: &str, stream: &str) -> MediaEntry {
    MediaEntry { app: Some(app.to_string()), stream: Some(stream.to_string()) }
}

#[test]
fn handle_invite_counts_and_reads_offer() {
    let st = state();
    let mut stats = Stats::new(1);
    let start = st.handle_invite(&mut stats, &headers(), OFFER).unwrap();
    assert!(start.trying.starts_with("SIP/2.0 100 Trying\r\n"));
    assert!(start.trying.contains("To: <sip:34020000001320000002@d>\r\n"));
    match start.next {
        Ok(InviteNext::Stream(c)) => {
            assert_eq!(c.call_id, "call-1");
            assert_eq!(c.remote_ip, "192.168.1.100");
            assert_eq!(c.remote_port, 30000);
            assert_eq!(c.ssrc, 100000001);
            assert_eq!(c.is_udp, 0);
            assert!(c.passive);
        }
        _ => panic!("expected a call"),
    }
    assert_eq!(stats.total_invites(), 1);
    assert_eq!(stats.invited_devices_count(), 1);
}

#[test]
fn handle_invite_refused_medium() {
    let st = state();
    let mut stats = Stats::new(1);
    let start = st
        .handle_invite(&mut stats, &headers(), "c=IN IP4 1.1.1.1\r\nm=video -1 RTP/AVP 96\r\n")
        .unwrap();
    match start.next {
        Ok(InviteNext::Rejected(r)) => {
            assert!(r.starts_with("SIP/2.0 200 OK\r\n"));
            assert!(r.contains(&format!("To: <sip:34020000001320000002@d>;tag={}\r\n", st.local_tag)));
        }
        _ => panic!("expected a refusal"),
    }
}

#[test]
fn handle_invite_errors() {
    let st = state();
    let mut stats = Stats::new(1);
    let start = st.handle_invite(&mut stats, &headers(), "m=video 1 RTP/AVP 96").unwrap();
    assert!(matches!(start.next, Err(SipError::NoConnectionLine)));
    let mut h = headers();
    h.remove(3);
    assert!(matches!(
        st.handle_invite(&mut stats, &h, OFFER),
        Err(SipError::MissingHeader(ref n)) if n == "Call-ID"
    ));
    assert!(matches!(st.handle_invite(&mut stats, &[], OFFER), Err(SipError::MissingHeader(_))));
    assert_eq!(stats.total_invites(), 3);
}

fn call(passive: bool, is_udp: u8) -> InviteCall {
    InviteCall {
        call_id: "call-1".to_string(),
        remote_ip: "192.168.1.100".to_string(),
        remote_port: 30000,
        ssrc: 100000001,
        is_udp,
        passive,
    }
}

#[test]
fn invite_media_step_without_stream() {
    let st = state();
    let media = vec![entry("rtp", "other"), MediaEntry { app: None, stream: Some("test".to_string()) }];
    match st.invite_media_step(&headers(), &call(true, 0), &media) {
        Ok(MediaStep::Unavailable(r)) => assert!(r.starts_with("SIP/2.0 503 Service Unavailable\r\n")),
        _ => panic!("expected 503"),
    }
}

#[test]
fn invite_media_step_start_urls() {
    let st = state();
    let media = vec![entry("live", "x"), entry("rtp", "test")];
    match st.invite_media_step(&headers(), &call(true, 0), &media) {
        Ok(MediaStep::Start(u)) => assert_eq!(
            u,
            "http://127.0.0.1:9080/index/api/startSendRtp?secret=sec&vhost=__defaultVhost__&app=rtp&stream=test&ssrc=100000001&dst_url=192.168.1.100&dst_port=30000&is_udp=0"
        ),
        _ => panic!("expected a start"),
    }
    match st.invite_media_step(&headers(), &call(false, 1), &media) {
        Ok(MediaStep::Start(u)) => assert_eq!(
            u,
            "http://127.0.0.1:9080/index/api/startSendRtpPassive?secret=sec&vhost=__defaultVhost__&app=rtp&stream=test&ssrc=100000001&is_udp=1"
        ),
        _ => panic!("expected a start"),
    }
}

#[test]
fn invite_answer_records_session_and_describes_media() {
    let st = state();
    let mut sessions = SessionStore::new();
    let r = st.invite_answer(&mut sessions, &headers(), &call(true, 0), 10000).unwrap();
    let sdp = "v=0\r\no=34020000001320000001 0 0 IN IP4 1.2.3.4\r\ns=Play\r\nc=IN IP4 1.2.3.4\r\nt=0 0\r\nm=video 10000 TCP/RTP/AVP 96\r\na=setup:active\r\na=connection:new\r\na=rtpmap:96 PS/90000\r\ny=100000001\r\n";
    assert!(r.ends_with(&format!("Content-Type: application/sdp\r\nContent-Length: {}\r\n\r\n{}", sdp.len(), sdp)));
    assert!(r.contains(&format!(";tag={}\r\n", st.local_tag)));
    let s = get_session(&sessions, "call-1").unwrap();
    assert_eq!(s.ssrc, 100000001);
    assert_eq!(s.app, "rtp");
    assert_eq!(s.stream_name, "test");
    assert_eq!(s.zlm_api_base, "http://127.0.0.1:9080");
    assert_eq!(s.zlm_secret, "sec");
}

#[test]
fn answer_body_udp_and_passive_roles() {
    let st = state();
    assert_eq!(
        st.answer_body(5, 1, false, 0),
        "v=0\r\no=34020000001320000001 0 0 IN IP4 1.2.3.4\r\ns=Play\r\nc=IN IP4 1.2.3.4\r\nt=0 0\r\nm=video 5 RTP/AVP 96\r\na=rtpmap:96 PS/90000\r\ny=0\r\n"
    );
    assert!(st.answer_body(5, 0, false, 0).contains("a=setup:passive\r\na=connection:new\r\n"));
}

#[test]
fn handle_bye_stops_and_forgets_session() {
    let st = state();
    let mut sessions = SessionStore::new();
    add_session(
        &mut sessions,
        "call-1",
        SessionInfo {
            ssrc: 7,
            stream_name: "test".to_string(),
            zlm_api_base: "http://zlm".to_string(),
            zlm_secret: "s".to_string(),
            app: "rtp".to_string(),
        },
    );
    let out = st.handle_bye(&mut sessions, &headers()).unwrap();
    assert_eq!(
        out.stop_url.as_deref(),
        Some("http://zlm/index/api/stopSendRtp?secret=s&vhost=__defaultVhost__&app=rtp&stream=test&ssrc=7")
    );
    assert!(out.reply.unwrap().starts_with("SIP/2.0 200 OK\r\n"));
    assert!(get_session(&sessions, "call-1").is_none());
    let again = st.handle_bye(&mut sessions, &headers()).unwrap();
    assert!(again.stop_url.is_none());
    assert_eq!(st.handle_bye(&mut sessions, &[]).err(), Some(SipError::MissingHeader("Call-ID".to_string())));
}

#[test]
fn answer_reads_back_as_an_offer() {
    let st = state();
    for (is_udp, passive) in [(1u8, false), (1, true), (0, false), (0, true)] {
        let sdp = st.answer_body(30002, is_udp, passive, 100000001);
        let parsed = parse_sdp(&sdp).unwrap();
        assert_eq!(
            parsed,
            ("1.2.3.4".to_string(), 30002, 100000001, is_udp, false, is_udp == 0 && !passive)
        );
    }
}
