use solana_rpc_cluster::net::IpAddr;
use solana_rpc_cluster::proxy::subscribe_supervisor::{
    Phase, SupervisorAction, SupervisorBuilder, SupervisorEvent,
};
use solana_rpc_cluster::stats::{Conn, IpStats, PersistedEntry, PersistedIpStats, PersistedStats, Stats, Tally};

fn persisted(n: u64) -> PersistedIpStats {
    PersistedIpStats {
        total_rpc_requests: n,
        total_tx_sends: n + 1,
        total_ws_messages: n + 2,
        total_grpc_requests: n + 3,
        total_arpc_requests: n + 4,
        rate_limited_count: n + 5,
        error_count: n + 6,
    }
}

#[test]
fn requests_are_counted_per_client_and_in_all() {
    let mut s = Stats::new();
    let ip = IpAddr::V4(1);
    s.record_rpc(ip, false, 10);
    s.record_rpc(ip, true, 20);
    s.record_rpc(IpAddr::V6(1), true, 30);
    let a = s.get_or_create(ip).snapshot();
    assert_eq!((a.total_rpc_requests, a.total_tx_sends), (2, 1));
    assert_eq!((a.rps_current, a.tps_current), (2, 1));
    assert_eq!(a.last_seen_epoch_ms, 20);
    let g = s.global_snapshot(77);
    assert_eq!((g.uptime_secs, g.total_requests), (77, 3));
    assert_eq!((g.global_rps, g.global_tps, g.connected_ips), (3, 2, 2));
}

#[test]
fn events_are_counted_apart() {
    let mut s = Stats::new();
    let ip = IpAddr::V4(1);
    s.record_rate_limited(ip);
    s.record_error(ip);
    s.record_error(ip);
    s.record(ip, Tally::WsMessage);
    s.record(ip, Tally::GrpcRequest);
    s.record(ip, Tally::ArpcRequest);
    let a = s.get_or_create(ip);
    assert_eq!((a.rate_limited_count, a.error_count), (1, 2));
    assert_eq!((a.total_ws_messages, a.total_grpc_requests, a.total_arpc_requests), (1, 1, 1));
    assert_eq!(s.global_snapshot(0).total_requests, 0);
}

#[test]
fn connections_are_counted_while_they_last() {
    let mut s = Stats::new();
    let ip = IpAddr::V4(1);
    for conn in [Conn::Rpc, Conn::Ws, Conn::Grpc, Conn::Arpc] {
        s.enter(ip, conn);
        s.enter(ip, conn);
        s.leave(ip, conn);
        assert_eq!(s.get_or_create(ip).active(conn), 1);
    }
    let a = s.get_or_create(ip).snapshot();
    assert_eq!((a.active_rpc_conns, a.active_ws_conns), (1, 1));
    assert_eq!((a.active_grpc_streams, a.active_arpc_streams), (1, 1));
}

#[test]
fn window_is_reset_and_totals_stay() {
    let mut s = Stats::new();
    for n in 0..50 {
        s.record_rpc(IpAddr::V4(n), true, 1);
    }
    s.reset_rolling_counters();
    for n in 0..50 {
        let a = s.get_or_create(IpAddr::V4(n));
        assert_eq!((a.rps_current, a.tps_current, a.total_rpc_requests), (0, 0, 1));
    }
    let g = s.global_snapshot(0);
    assert_eq!((g.global_rps, g.global_tps, g.total_requests), (0, 0, 50));
}

#[test]
fn what_was_kept_comes_back() {
    let mut s = Stats::new();
    s.record_rpc(IpAddr::V4(1), true, 5);
    s.record_error(IpAddr::V6(2));
    s.enter(IpAddr::V6(2), Conn::Ws);
    let kept = s.persist();
    assert_eq!(kept.per_ip.len(), 2);
    let mut t = Stats::new();
    t.restore(&kept);
    let a = t.get_or_create(IpAddr::V4(1));
    assert_eq!((a.total_rpc_requests, a.total_tx_sends), (1, 1));
    assert_eq!((a.rps_current, a.last_seen_epoch_ms), (0, 0));
    let b = t.get_or_create(IpAddr::V6(2));
    assert_eq!((b.error_count, b.active_ws_conns), (1, 0));
    assert_eq!(t.global_snapshot(0).total_requests, 1);
    assert_eq!(t.global_snapshot(0).connected_ips, 2);
}

#[test]
fn restore_passes_over_what_is_no_address() {
    let mut s = Stats::new();
    s.restore(&PersistedStats {
        global_total_requests: 9,
        per_ip: vec![
            PersistedEntry { ip: None, stats: persisted(100) },
            PersistedEntry { ip: Some(IpAddr::V4(3)), stats: persisted(1) },
        ],
    });
    assert_eq!(s.global_snapshot(0).connected_ips, 1);
    let a = s.get_or_create(IpAddr::V4(3));
    assert_eq!((a.total_rpc_requests, a.error_count, a.total_ws_messages), (1, 7, 3));
    assert_eq!(s.snapshots().len(), 1);
    assert_eq!(IpStats::default().snapshot().error_count, 0);
}

#[test]
fn drop_during_idle_upstream_cancels_and_decrements() {
    let ip = IpAddr::V4(1);
    let mut stats = Stats::new();
    let mut sb = SupervisorBuilder::new(ip, Conn::Grpc);
    sb.spawn();
    let mut supervisor = sb.start(&mut stats);
    assert_eq!(stats.get_or_create(ip).active_grpc_streams, 1);
    assert_eq!(stats.supervisor_counters().active, 1);

    let action = supervisor.on_event(SupervisorEvent::HandleDropped, &mut stats);
    assert_eq!(action, SupervisorAction::CancelAndGrace);
    assert_eq!(
        supervisor.on_event(SupervisorEvent::ChildDone, &mut stats),
        SupervisorAction::Wait
    );
    assert_eq!(
        supervisor.on_event(SupervisorEvent::AllDone, &mut stats),
        SupervisorAction::Finish
    );
    assert_eq!(supervisor.phase, Phase::Finished);

    assert_eq!(stats.get_or_create(ip).active_grpc_streams, 0);
    assert_eq!(stats.supervisor_counters().active, 0);
    assert_eq!(stats.supervisor_counters().forwarder_aborted_total, 0);
    assert_eq!(stats.supervisor_counters().drops_total, 1);
}

#[test]
fn stuck_forwarder_is_aborted() {
    let ip = IpAddr::V4(1);
    let mut stats = Stats::new();
    let mut sb = SupervisorBuilder::new(ip, Conn::Grpc);
    sb.spawn();
    let mut supervisor = sb.start(&mut stats);

    supervisor.on_event(SupervisorEvent::HandleDropped, &mut stats);
    assert_eq!(
        supervisor.on_event(SupervisorEvent::GraceOver, &mut stats),
        SupervisorAction::AbortAll
    );
    supervisor.on_event(SupervisorEvent::ChildDone, &mut stats);
    assert_eq!(
        supervisor.on_event(SupervisorEvent::AllDone, &mut stats),
        SupervisorAction::Finish
    );

    assert_eq!(stats.get_or_create(ip).active_grpc_streams, 0);
    assert!(stats.supervisor_counters().forwarder_aborted_total >= 1);
    assert_eq!(stats.supervisor_counters().drops_total, 1);
}

#[test]
fn stream_without_forwarders_ends_at_once() {
    let ip = IpAddr::V4(1);
    let mut stats = Stats::new();
    let mut supervisor = SupervisorBuilder::new(ip, Conn::Arpc).start(&mut stats);
    assert_eq!(stats.get_or_create(ip).active_arpc_streams, 1);
    assert_eq!(
        supervisor.on_event(SupervisorEvent::AllDone, &mut stats),
        SupervisorAction::Finish
    );
    assert_eq!(stats.get_or_create(ip).active_arpc_streams, 0);
}

#[test]
fn grace_that_ends_with_nobody_left_finishes() {
    let ip = IpAddr::V4(1);
    let mut stats = Stats::new();
    let mut sb = SupervisorBuilder::new(ip, Conn::Grpc);
    sb.spawn();
    sb.spawn();
    let mut supervisor = sb.start(&mut stats);
    supervisor.on_event(SupervisorEvent::Cancelled, &mut stats);
    supervisor.on_event(SupervisorEvent::ChildDone, &mut stats);
    supervisor.on_event(SupervisorEvent::ChildDone, &mut stats);
    assert_eq!(
        supervisor.on_event(SupervisorEvent::GraceOver, &mut stats),
        SupervisorAction::Finish
    );
    assert_eq!(stats.supervisor_counters().forwarder_aborted_total, 0);
}

#[test]
fn counters_in_all_are_the_sums_over_the_clients() {
    let mut s = Stats::new();
    for n in 0..10u32 {
        s.record_rpc(IpAddr::V4(n % 3), n % 2 == 0, 1000);
        s.record_rate_limited(IpAddr::V4(n));
        s.record_error(IpAddr::V4(7));
        if n == 4 {
            s.reset_rolling_counters();
        }
    }
    let all = s.snapshots();
    assert_eq!(all.iter().map(|(_, c)| c.total_rpc_requests).sum::<u64>(), 10);
    assert_eq!(s.global_total_requests, 10);
    assert_eq!(all.iter().map(|(_, c)| c.rps_current).sum::<u64>(), s.global_rps_current);
    assert_eq!(s.global_rps_current, 5);
    assert_eq!(all.iter().map(|(_, c)| c.tps_current).sum::<u64>(), s.global_tps_current);
    assert_eq!(s.global_tps_current, 2);
    assert!(all.iter().all(|(_, c)| c.total_tx_sends <= c.total_rpc_requests));
}
