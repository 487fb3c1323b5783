use svc_registry::discovery::parse_backends;
use svc_registry::hlc::{ts_lt_exec, Hlc, HlcTimestamp};
use svc_registry::syncer::{Backend, RunStep, Service, SyncMgr};
use svc_registry::timer::{sampler_step, SamplerAction, SamplerEvent, SysTime};

fn ts(sec: i64, nsec: i64, counter: i64) -> HlcTimestamp {
    HlcTimestamp { sec, nsec, counter }
}

fn stamped(name: &str, ips: &[&str], version: HlcTimestamp) -> Service {
    let backends: Vec<Backend> = ips.iter().map(|ip| Backend::new(ip)).collect();
    let mut svc = Service::new(name, backends);
    svc.set_version(version);
    svc
}

#[test]
fn tick_increments_on_same_sample_and_resets_on_advance() {
    let mut clock = Hlc::new(SysTime::new(100, 0));
    assert_eq!(clock.tick(100, 0), ts(100, 0, 1));
    assert_eq!(clock.tick(100, 0), ts(100, 0, 2));
    assert_eq!(clock.tick(100, 5), ts(100, 5, 0));
    assert_eq!(clock.tick(101, 0), ts(101, 0, 0));
}

#[test]
fn timestamps_strictly_increase_under_repeated_samples() {
    let mut clock = Hlc::new(SysTime::new(3, 4));
    let mut prev = clock.timestamp();
    for _ in 0..50 {
        let next = clock.timestamp();
        assert!(ts_lt_exec(&prev, &next));
        prev = next;
    }
}

#[test]
fn timestamp_follows_the_published_sample() {
    let sampler = SysTime::new(3, 4);
    let mut clock = Hlc::new(sampler.clone());
    assert_eq!(clock.timestamp(), ts(3, 4, 1));
    sampler.store(9, 1);
    assert_eq!(clock.timestamp(), ts(9, 1, 0));
}

#[test]
fn merge_is_noop_when_local_is_ahead_or_equal() {
    let mut a = Hlc::new(SysTime::new(0, 0));
    a.last = ts(10, 5, 3);
    let mut b = Hlc::new(SysTime::new(0, 0));
    b.last = ts(10, 5, 3);
    assert_eq!(a.update_timestamp(&b), Some(ts(10, 5, 3)));
    assert_eq!(a.last, ts(10, 5, 3));
    b.last = ts(9, 99, 99);
    assert_eq!(a.update_timestamp(&b), Some(ts(10, 5, 3)));
}

#[test]
fn merge_adopts_remote_pair_with_zero_counter() {
    let mut a = Hlc::new(SysTime::new(0, 0));
    a.last = ts(1, 0, 7);
    let mut b = Hlc::new(SysTime::new(0, 0));
    b.last = ts(9, 3, 4);
    assert_eq!(a.update_timestamp(&b), Some(ts(9, 3, 0)));
    assert_eq!(a.last, ts(9, 3, 0));
}

#[test]
fn merge_on_tied_pair_advances_past_remote_counter() {
    let mut a = Hlc::new(SysTime::new(0, 0));
    a.last = ts(5, 5, 2);
    let mut b = Hlc::new(SysTime::new(0, 0));
    b.last = ts(5, 5, 7);
    let merged = a.update_timestamp(&b).unwrap();
    assert_eq!(merged, ts(5, 5, 8));
    assert!(!ts_lt_exec(&merged, &ts(5, 5, 2)));
}

#[test]
fn clocks_compare_by_current_timestamp() {
    let mut a = Hlc::new(SysTime::new(0, 0));
    a.last = ts(2, 0, 0);
    let mut b = Hlc::new(SysTime::new(5, 5));
    b.last = ts(2, 0, 0);
    assert!(a == b);
    b.last = ts(2, 0, 1);
    assert!(a != b);
    assert!(a < b);
    assert!(b >= a);
    b.last = ts(1, 9, 9);
    assert!(b < a);
}

#[test]
fn sampler_step_refreshes_only_while_pending() {
    assert!(matches!(sampler_step(&SamplerEvent::Pending), SamplerAction::Refresh));
    assert!(matches!(sampler_step(&SamplerEvent::Cancelled), SamplerAction::Stop));
    assert!(matches!(sampler_step(&SamplerEvent::Closed), SamplerAction::Stop));
}

#[test]
fn observe_rtt_tracks_count_last_and_running_mean() {
    let mut b = Backend::new("10.0.0.1");
    b.observe_rtt(100);
    assert_eq!((b.count, b.rtt, b.rtt_mean), (1, 100, 100));
    b.observe_rtt(50);
    assert_eq!((b.count, b.rtt, b.rtt_mean), (2, 50, 75));
    b.observe_rtt(10);
    assert_eq!((b.count, b.rtt, b.rtt_mean), (3, 10, 54));
}

#[test]
fn default_service_is_the_empty_sentinel() {
    let s = Service::default();
    assert!(s.name.is_empty());
    assert!(s.backends.is_empty());
    assert_eq!(s.version, ts(0, 0, 0));
}

#[test]
fn last_writer_wins_in_either_order() {
    let older = stamped("svc", &["10.0.0.1"], ts(5, 0, 0));
    let newer = stamped("svc", &["10.0.0.2"], ts(5, 0, 1));

    let (_tx, rx) = async_std::channel::bounded::<Service>(4);
    let mut mgr = SyncMgr::new(rx);
    mgr.apply_update(older.clone());
    mgr.apply_update(newer.clone());
    let kept = mgr.get_service("svc").unwrap();
    assert_eq!(kept.version, ts(5, 0, 1));
    assert_eq!(kept.backends[0].ip, "10.0.0.2");

    let (_tx2, rx2) = async_std::channel::bounded::<Service>(4);
    let mut mgr2 = SyncMgr::new(rx2);
    mgr2.apply_update(newer);
    mgr2.apply_update(older);
    let kept2 = mgr2.get_service("svc").unwrap();
    assert_eq!(kept2.version, ts(5, 0, 1));
    assert_eq!(kept2.backends[0].ip, "10.0.0.2");
}

#[test]
fn duplicate_submission_is_a_noop() {
    let update = stamped("svc", &["10.0.0.1"], ts(7, 7, 7));
    let (_tx, rx) = async_std::channel::bounded::<Service>(4);
    let mut mgr = SyncMgr::new(rx);
    mgr.apply_update(update.clone());
    mgr.apply_update(update);
    let kept = mgr.get_service("svc").unwrap();
    assert_eq!(kept.version, ts(7, 7, 7));
    assert_eq!(kept.backends.len(), 1);
    assert!(mgr.services.len() == 1);
}

#[test]
fn empty_name_is_never_stored() {
    let (_tx, rx) = async_std::channel::bounded::<Service>(4);
    let mut mgr = SyncMgr::new(rx);
    let mut sentinel = Service::default();
    sentinel.set_version(ts(50, 0, 0));
    mgr.apply_update(sentinel);
    assert!(mgr.get_service("").is_none());
    assert!(mgr.services.is_empty());
}

#[test]
fn run_step_reports_idle_then_shutdown() {
    let (tx, rx) = async_std::channel::bounded::<Service>(4);
    let mut mgr = SyncMgr::new(rx);
    assert!(matches!(mgr.run_step(), RunStep::Idle));
    drop(tx);
    assert!(matches!(mgr.run_step(), RunStep::Shutdown));
}

#[test]
fn end_to_end_lookup_then_updates() {
    let (tx, rx) = async_std::channel::bounded::<Service>(8);
    let mut mgr = SyncMgr::new(rx);

    // A lookup miss synthesizes a fresh record from discovery, not stored.
    assert!(mgr.get_service("svc-a").is_none());
    let discovered = parse_backends("svc-a,ips:[\"10.1.1.1\"]").unwrap();
    let fresh = Service::new("svc-a", discovered);
    assert_eq!(fresh.version, ts(0, 0, 0));
    assert_eq!(fresh.backends[0].ip, "10.1.1.1");
    assert!(mgr.get_service("svc-a").is_none());

    // An accepted first update is stored.
    tx.try_send(stamped("svc-a", &["10.0.0.1"], ts(100, 0, 0))).unwrap();
    assert!(matches!(mgr.run_step(), RunStep::Applied));
    let held = mgr.get_service("svc-a").unwrap();
    assert_eq!(held.version, ts(100, 0, 0));
    assert_eq!(held.backends[0].ip, "10.0.0.1");

    // An older candidate is dropped silently.
    tx.try_send(stamped("svc-a", &["10.0.0.2"], ts(99, 0, 5))).unwrap();
    assert!(matches!(mgr.run_step(), RunStep::Applied));
    let held = mgr.get_service("svc-a").unwrap();
    assert_eq!(held.version, ts(100, 0, 0));
    assert_eq!(held.backends[0].ip, "10.0.0.1");

    // A strictly newer candidate replaces the record.
    tx.try_send(stamped("svc-a", &["10.0.0.2"], ts(100, 0, 1))).unwrap();
    assert!(matches!(mgr.run_step(), RunStep::Applied));
    let held = mgr.get_service("svc-a").unwrap();
    assert_eq!(held.version, ts(100, 0, 1));
    assert_eq!(held.backends[0].ip, "10.0.0.2");

    drop(tx);
    assert!(matches!(mgr.run_step(), RunStep::Shutdown));
}

#[test]
fn parse_backends_extracts_quoted_addresses() {
    let body = "svc,ips:[\"10.0.0.1\",\"10.0.0.2\",\"10.0.0.3\"]";
    let backends = parse_backends(body).unwrap();
    let ips: Vec<&str> = backends.iter().map(|b| b.ip.as_str()).collect();
    assert_eq!(ips, vec!["10.0.0.1", "10.0.0.2", "10.0.0.3"]);
    for b in &backends {
        assert_eq!((b.reqs, b.count, b.rtt, b.rtt_mean), (0, 0, 0, 0));
    }
}

#[test]
fn parse_backends_handles_single_backend_and_no_marker() {
    let backends = parse_backends("header,\"192.168.0.9\"").unwrap();
    assert_eq!(backends.len(), 1);
    assert_eq!(backends[0].ip, "192.168.0.9");
}

#[test]
fn parse_backends_rejects_malformed_bodies() {
    assert!(parse_backends("no separators here").is_none());
    assert!(parse_backends("head,unquoted").is_none());
    assert!(parse_backends("head,\"10.0.0.1\",unquoted").is_none());
}
