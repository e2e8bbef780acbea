use gbhub_stress::fleet::{channel_id, device_id, device_port, split_fixed_stream};

#[test]
fn default_prefix_gives_twenty_digit_ids() {
    assert_eq!(device_id("3402000000", 0), "34020000000000000001");
    assert_eq!(device_id("3402000000", 41), "34020000000000000042");
    assert_eq!(channel_id("3402000000", 0), "34020000000001000001");
    assert_eq!(device_id("3402000000", 4999).len(), 20);
}

#[test]
fn ids_widen_past_ten_digits() {
    assert_eq!(device_id("p", 9_999_999_999), "p10000000000");
    assert_eq!(device_id("", 9), "0000000010");
}

#[test]
fn ports_count_up_from_the_base() {
    assert_eq!(device_port(15000, 0), 15000);
    assert_eq!(device_port(15000, 7), 15007);
    assert_eq!(device_port(65535, 1), 0);
    assert_eq!(device_port(10, 65536), 10);
}

#[test]
fn fixed_stream_splits_at_first_slash() {
    assert_eq!(
        split_fixed_stream("rtp/test_stream"),
        Some(("rtp".to_string(), "test_stream".to_string()))
    );
    assert_eq!(split_fixed_stream("a/b/c"), Some(("a".to_string(), "b/c".to_string())));
    assert_eq!(split_fixed_stream("/x"), Some((String::new(), "x".to_string())));
    assert_eq!(split_fixed_stream("nostream"), None);
}
