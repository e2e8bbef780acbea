use gbhub_stress::zlm_client::{
    local_port_of, media_list_of, reply_ok, retry_after_failure, stream_exists, MediaEntry,
    ZlmClient, ZlmError, ZlmReply,
};

fn client() -> ZlmClient {
    ZlmClient::new("http://h:80".to_string(), "k".to_string())
}

#[test]
fn client_fields() {
    let c = ZlmClient::for_node("http://a", "b");
    assert_eq!(c.api_base(), "http://a");
    assert_eq!(c.secret(), "b");
}

#[test]
fn request_urls() {
    let c = client();
    assert_eq!(c.media_list_url(), "http://h:80/index/api/getMediaList?secret=k");
    assert_eq!(
        c.start_send_rtp_url("v", "a", "s", 1, "1.2.3.4", 2, 1, Some(3), Some(96), Some(0)),
        "http://h:80/index/api/startSendRtp?secret=k&vhost=v&app=a&stream=s&ssrc=1&dst_url=1.2.3.4&dst_port=2&is_udp=1&src_port=3&pt=96&only_track=0"
    );
    assert_eq!(
        c.start_send_rtp_passive_url("v", "a", "s", 4294967295, 0, Some(2), true),
        "http://h:80/index/api/startSendRtpPassive?secret=k&vhost=v&app=a&stream=s&ssrc=4294967295&is_udp=0&only_track=2&only_audio=1"
    );
    assert_eq!(
        c.stop_send_rtp_url("v", "a", "s", None),
        "http://h:80/index/api/stopSendRtp?secret=k&vhost=v&app=a&stream=s"
    );
    assert_eq!(
        c.stop_send_rtp_url("v", "a", "s", Some(0)),
        "http://h:80/index/api/stopSendRtp?secret=k&vhost=v&app=a&stream=s&ssrc=0"
    );
}

fn reply(code: Option<i64>, local_port: Option<u64>) -> ZlmReply {
    ZlmReply { code, data: None, local_port }
}

#[test]
fn reading_replies() {
    assert!(reply_ok(&reply(Some(0), None)));
    assert!(!reply_ok(&reply(Some(-1), None)));
    assert!(!reply_ok(&reply(None, None)));
    assert_eq!(local_port_of(&reply(Some(0), Some(10000))), Ok(10000));
    assert_eq!(local_port_of(&reply(Some(0), Some(70000))), Ok(4464));
    assert_eq!(local_port_of(&reply(Some(0), None)), Err(ZlmError::NoLocalPort));
    assert!(media_list_of(reply(Some(0), None)).is_empty());
    let r = ZlmReply {
        code: Some(0),
        data: Some(vec![MediaEntry { app: Some("rtp".to_string()), stream: None }]),
        local_port: None,
    };
    assert_eq!(media_list_of(r).len(), 1);
}

#[test]
fn retrying() {
    assert_eq!(retry_after_failure(0, 2), (1, false));
    assert_eq!(retry_after_failure(1, 2), (2, false));
    assert_eq!(retry_after_failure(2, 2), (3, true));
    assert_eq!(retry_after_failure(0, 0), (1, true));
}

#[test]
fn finding_the_stream() {
    let media = vec![
        MediaEntry { app: Some("rtp".to_string()), stream: Some("x".to_string()) },
        MediaEntry { app: None, stream: Some("test".to_string()) },
    ];
    assert!(!stream_exists(&media, "rtp", "test"));
    assert!(stream_exists(&media, "rtp", "x"));
    assert!(!stream_exists(&[], "rtp", "x"));
}
