use gbhub_stress::sip::session::{add_session, get_session, remove_session, SessionInfo, SessionStore};
use gbhub_stress::stats::Stats;

fn info(ssrc: u32) -> SessionInfo {
    SessionInfo {
        ssrc,
        stream_name: "test".to_string(),
        zlm_api_base: "http://zlm".to_string(),
        zlm_secret: "s".to_string(),
        app: "rtp".to_string(),
    }
}

#[test]
fn sessions_read_after_write() {
    let mut store = SessionStore::new();
    assert!(get_session(&store, "a").is_none());
    add_session(&mut store, "a", info(1));
    add_session(&mut store, "b", info(2));
    assert_eq!(get_session(&store, "a").unwrap().ssrc, 1);
    add_session(&mut store, "a", info(3));
    assert_eq!(get_session(&store, "a").unwrap().ssrc, 3);
    remove_session(&mut store, "a");
    assert!(get_session(&store, "a").is_none());
    assert_eq!(get_session(&store, "b").unwrap().ssrc, 2);
    remove_session(&mut store, "zzz");
    assert_eq!(get_session(&store, "b").unwrap().ssrc, 2);
}

#[test]
fn stats_count_registrations_and_invites() {
    let mut s = Stats::new(3);
    assert_eq!(s.total_devices(), 3);
    assert_eq!(s.registered_count(), 0);
    s.mark_registered("d1");
    s.mark_registered("d1");
    s.mark_registered("d2");
    assert_eq!(s.registered_count(), 2);
    s.mark_invite("d1");
    s.mark_invite("d1");
    s.mark_invite("d3");
    assert_eq!(s.total_invites(), 3);
    assert_eq!(s.invited_devices_count(), 2);
}

#[test]
fn session_kept_through_other_changes() {
    let mut store = SessionStore::new();
    add_session(&mut store, "c", info(7));
    add_session(&mut store, "d", info(8));
    remove_session(&mut store, "d");
    add_session(&mut store, "e", info(9));
    assert_eq!(get_session(&store, "c").unwrap().ssrc, 7);
    assert!(get_session(&store, "d").is_none());
    assert_eq!(get_session(&store, "e").unwrap().ssrc, 9);
}

#[test]
fn invited_device_count_rises_for_new_devices_only() {
    let mut s = Stats::new(2);
    s.mark_invite("a");
    assert_eq!((s.total_invites(), s.invited_devices_count(), s.registered_count()), (1, 1, 0));
    s.mark_invite("a");
    assert_eq!((s.total_invites(), s.invited_devices_count(), s.registered_count()), (2, 1, 0));
    s.mark_invite("b");
    assert_eq!((s.total_invites(), s.invited_devices_count(), s.registered_count()), (3, 2, 0));
}
