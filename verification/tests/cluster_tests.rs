use solana_rpc_cluster::cluster::grpc_pool::{ChannelNext, GrpcPool, ManagedChannel};
use solana_rpc_cluster::cluster::health::{
    compare_slots, iris_request_body, slot_from, slot_of_reply, slot_request_body, CheckEvent,
    CheckStep, HealthChecker, HealthNotice, NodeHealth, NodeStatus, Probe,
};
use solana_rpc_cluster::cluster::router::{
    check_url, forward_result, url_error, Attempt, Reply, Router, SendCollector, UpstreamOutcome,
};
use solana_rpc_cluster::cluster::NodeEntry;
use solana_rpc_cluster::config::{HealthConfig, NodeConfig};
use solana_rpc_cluster::proxy::status::GrpcCode;

fn node_config(id: &str, priority: u32) -> NodeConfig {
    NodeConfig {
        id: id.to_string(),
        label: String::new(),
        region: String::new(),
        priority,
        rpc_url: format!("http://{}:8899", id),
        ws_url: String::new(),
        grpc_url: format!("http://{}:10101", id),
        arpc_url: String::new(),
        grpc_x_token: String::new(),
        iris_url: None,
        rpc_pool_max_idle: 1,
        rpc_pool_idle_timeout_secs: 1,
    }
}

fn node(id: &str, priority: u32) -> NodeEntry {
    NodeEntry {
        config: node_config(id, priority),
        health: NodeHealth::new(id.to_string()),
        client: 0,
    }
}

fn ids(list: &[&str]) -> Vec<String> {
    list.iter().map(|s| s.to_string()).collect()
}

fn router(nodes: Vec<NodeEntry>) -> Router {
    let all: Vec<String> = nodes.iter().map(|n| n.config.id.clone()).collect();
    Router::new(nodes, all.clone(), all)
}

fn health() -> HealthConfig {
    HealthConfig { check_interval_secs: 0, unhealthy_threshold: 3, healthy_threshold: 2, timeout_ms: 1 }
}

fn reply(body: &str) -> Reply {
    Reply { status: 200, body: body.as_bytes().to_vec() }
}

#[test]
fn status_codes_and_names() {
    assert_eq!(NodeStatus::from_u8(0), NodeStatus::Healthy);
    assert_eq!(NodeStatus::from_u8(1), NodeStatus::Degraded);
    assert_eq!(NodeStatus::from_u8(2), NodeStatus::Down);
    assert_eq!(NodeStatus::from_u8(200), NodeStatus::Down);
    assert_eq!(NodeStatus::Healthy.as_str(), "healthy");
    assert_eq!(NodeStatus::Degraded.as_str(), "degraded");
    assert_eq!(NodeStatus::Down.as_str(), "down");
    assert_eq!(NodeStatus::from_u8(NodeStatus::Degraded.code()), NodeStatus::Degraded);
}

#[test]
fn node_goes_down_and_comes_back_at_the_thresholds() {
    let c = health();
    let mut h = NodeHealth::new("a".to_string());
    assert_eq!(h.observe_rpc(&Probe::TimedOut, 1, &c), HealthNotice::Nothing);
    assert_eq!(h.observe_rpc(&Probe::Failed, 1, &c), HealthNotice::Nothing);
    assert!(h.is_healthy());
    assert_eq!(h.observe_rpc(&Probe::Failed, 1, &c), HealthNotice::WentDown { failures: 3 });
    assert!(!h.is_healthy());
    assert_eq!(h.observe_rpc(&Probe::Failed, 1, &c), HealthNotice::Nothing);
    assert_eq!(h.observe_rpc(&Probe::Answered((20, 100)), 2, &c), HealthNotice::Nothing);
    assert!(!h.is_healthy());
    assert_eq!(h.observe_rpc(&Probe::Answered((20, 101)), 3, &c), HealthNotice::Recovered);
    assert_eq!(h.get_status(), NodeStatus::Healthy);
    assert_eq!((h.latency_ms, h.last_slot, h.last_seen_ms), (20, 101, 3));
    assert_eq!((h.total_checks, h.total_successes), (6, 2));
    assert_eq!((h.consecutive_failures, h.consecutive_successes), (0, 2));
}

#[test]
fn slow_node_is_degraded() {
    let c = health();
    let mut h = NodeHealth::new("a".to_string());
    h.observe_rpc(&Probe::Answered((500, 1)), 1, &c);
    assert_eq!(h.get_status(), NodeStatus::Healthy);
    h.observe_rpc(&Probe::Answered((501, 1)), 1, &c);
    assert_eq!(h.get_status(), NodeStatus::Degraded);
    h.observe_rpc(&Probe::Answered((10, 1)), 1, &c);
    assert_eq!(h.get_status(), NodeStatus::Healthy);
}

#[test]
fn lagging_node_is_degraded() {
    let mut nodes = vec![node("a", 1), node("b", 1), node("c", 1), node("d", 1)];
    nodes[0].health.last_slot = 100;
    nodes[1].health.last_slot = 95;
    nodes[2].health.last_slot = 94;
    compare_slots(&mut nodes, 100);
    assert_eq!(nodes[0].health.get_status(), NodeStatus::Healthy);
    assert_eq!(nodes[1].health.get_status(), NodeStatus::Healthy);
    assert_eq!(nodes[2].health.get_status(), NodeStatus::Degraded);
    assert_eq!(nodes[3].health.get_status(), NodeStatus::Healthy);
}

#[test]
fn only_a_good_answer_makes_iris_healthy() {
    let mut h = NodeHealth::new("a".to_string());
    h.observe_iris(&Probe::Answered(true));
    assert!(h.iris_healthy);
    h.observe_iris(&Probe::Answered(false));
    assert!(!h.iris_healthy);
    h.observe_iris(&Probe::TimedOut);
    assert!(!h.iris_healthy);
    h.observe_grpc(&Probe::Failed);
    assert!(!h.grpc_healthy);
    h.observe_grpc(&Probe::Answered(()));
    assert!(h.grpc_healthy);
}

#[test]
fn round_checks_every_node_in_order() {
    let mut nodes = vec![node("a", 1), node("b", 1)];
    nodes[0].config.iris_url = Some("http://iris".to_string());
    nodes[1].config.grpc_url = String::new();
    let mut checker = HealthChecker::new(health());
    assert_eq!(checker.interval_secs(), 1);
    assert_eq!(checker.advance(&mut nodes, CheckEvent::Tick).0, CheckStep::Rpc { node: 0 });
    let e = CheckEvent::Rpc { probe: Probe::Answered((10, 200)), now_ms: 5 };
    assert_eq!(checker.advance(&mut nodes, e).0, CheckStep::Iris { node: 0 });
    let e = CheckEvent::Iris { probe: Probe::Answered(true) };
    assert_eq!(checker.advance(&mut nodes, e).0, CheckStep::Grpc { node: 0 });
    let e = CheckEvent::Grpc { probe: Probe::Failed };
    assert_eq!(checker.advance(&mut nodes, e).0, CheckStep::Rpc { node: 1 });
    let e = CheckEvent::Rpc { probe: Probe::Answered((10, 100)), now_ms: 6 };
    assert_eq!(checker.advance(&mut nodes, e).0, CheckStep::Wait);
    assert!(nodes[0].health.iris_healthy);
    assert!(!nodes[0].health.grpc_healthy);
    assert_eq!(nodes[1].health.get_status(), NodeStatus::Degraded);
    assert_eq!(checker.max_slot, 200);
}

#[test]
fn round_without_nodes_ends_at_once() {
    let mut nodes: Vec<NodeEntry> = Vec::new();
    let mut checker = HealthChecker::new(health());
    assert_eq!(checker.advance(&mut nodes, CheckEvent::Tick).0, CheckStep::Wait);
}

#[test]
fn slot_is_read_from_the_reply() {
    assert_eq!(slot_of_reply(br#"{"jsonrpc":"2.0","result":123,"id":1}"#), Some(123));
    assert_eq!(slot_of_reply(br#"{"error":{}}"#), Some(0));
    assert_eq!(slot_of_reply(br#"{"result":-1}"#), Some(0));
    assert_eq!(slot_of_reply(br#"[1]"#), Some(0));
    assert_eq!(slot_of_reply(b"<html>"), None);
    assert_eq!(slot_from(Some(Some(7))), Some(7));
    assert_eq!(slot_from(Some(None)), Some(0));
    assert_eq!(slot_from(None), None);
    assert_eq!(slot_request_body(), r#"{"id":1,"jsonrpc":"2.0","method":"getSlot"}"#);
    assert_eq!(iris_request_body(), r#"{"id":1,"jsonrpc":"2.0","method":"health"}"#);
}

#[test]
fn lowest_priority_is_picked_and_ties_go_to_the_first() {
    let mut r = router(vec![node("a", 5), node("b", 2), node("c", 2)]);
    assert_eq!(r.pick_read_node().unwrap().config.id, "b");
    r.nodes[1].health.status = NodeStatus::Degraded.code();
    assert_eq!(r.pick_ws_node().unwrap().config.id, "b");
    r.nodes[1].health.status = NodeStatus::Down.code();
    assert_eq!(r.pick_read_node().unwrap().config.id, "c");
    r.nodes[2].health.status = NodeStatus::Down.code();
    assert_eq!(r.pick_read_node().unwrap().config.id, "a");
    r.nodes[0].health.status = NodeStatus::Down.code();
    assert!(r.pick_read_node().is_none());
    assert_eq!(r.get_nodes().len(), 3);
}

#[test]
fn grpc_pick_needs_listing_and_grpc_health() {
    let mut r = Router::new(
        vec![node("a", 1), node("b", 2), node("c", 3)],
        ids(&[]),
        ids(&["c", "b"]),
    );
    assert_eq!(r.pick_grpc_node().unwrap().config.id, "b");
    r.nodes[1].health.grpc_healthy = false;
    assert_eq!(r.pick_grpc_node().unwrap().config.id, "c");
    assert_eq!(r.get_grpc_eligible_nodes(), vec![1, 2]);
    r.nodes[2].health.status = NodeStatus::Down.code();
    assert!(r.pick_grpc_node().is_none());
    assert_eq!(r.get_grpc_eligible_nodes(), vec![1, 2]);
}

#[test]
fn transaction_fans_out_to_all_healthy_targets() {
    let mut r = Router::new(
        vec![node("a", 1), node("b", 2), node("c", 3), node("d", 4)],
        ids(&["a", "b", "d"]),
        ids(&[]),
    );
    r.nodes[0].config.iris_url = Some("http://iris-a".to_string());
    r.nodes[0].health.iris_healthy = true;
    r.nodes[1].config.iris_url = Some("http://iris-b".to_string());
    r.nodes[3].health.status = NodeStatus::Down.code();
    let t = r.fan_out_send_tx().unwrap();
    assert_eq!(t.len(), 2);
    assert_eq!((t[0].node, t[0].url.as_str()), (0, "http://iris-a"));
    assert_eq!((t[1].node, t[1].url.as_str()), (1, "http://b:8899"));
    r.nodes[0].health.status = NodeStatus::Down.code();
    r.nodes[1].health.status = NodeStatus::Down.code();
    assert_eq!(r.fan_out_send_tx().err().unwrap(), "No healthy nodes for sendTransaction");
}

#[test]
fn first_success_of_a_fan_out_is_the_answer() {
    let mut c = SendCollector::new();
    assert!(c.on_result(Err("one".to_string())).is_none());
    assert!(c.on_result(Err("two".to_string())).is_none());
    let r = c.on_result(Ok(reply("ok"))).unwrap();
    assert_eq!(r.body, b"ok");
    let mut c = SendCollector::new();
    c.on_result(Err("one".to_string()));
    c.on_result(Err("two".to_string()));
    assert_eq!(c.finish(), "two");
    assert_eq!(SendCollector::new().finish(), "All upstreams failed");
}

#[test]
fn read_is_tried_by_priority_until_one_succeeds() {
    let mut r = router(vec![node("a", 9), node("b", 1), node("c", 9), node("d", 5)]);
    r.nodes[3].health.status = NodeStatus::Down.code();
    let mut a = r.forward_read_rpc().unwrap();
    assert_eq!(a.order, vec![1, 0, 2]);
    assert_eq!(a.current(), 1);
    assert!(matches!(a.on_result(Err("x".to_string())), Attempt::Forward(0)));
    assert!(matches!(a.on_result(Err("y".to_string())), Attempt::Forward(2)));
    match a.on_result(Err("z".to_string())) {
        Attempt::GiveUp(e) => assert_eq!(e, "z"),
        _ => panic!("expected to give up"),
    }
    let mut a = r.forward_read_rpc().unwrap();
    match a.on_result(Ok(reply("r"))) {
        Attempt::Answer(r) => assert_eq!(r.body, b"r"),
        _ => panic!("expected an answer"),
    }
    let mut none = router(Vec::new());
    assert_eq!(none.forward_read_rpc().err().unwrap(), "No healthy nodes");
    assert_eq!(none.forward_heavy_rpc().err().unwrap(), "No healthy nodes for heavy RPC");
}

#[test]
fn heavy_reads_go_round() {
    let mut r = router(vec![node("a", 1), node("b", 2), node("c", 3)]);
    assert_eq!(r.forward_heavy_rpc().unwrap().order, vec![0, 1, 2]);
    assert_eq!(r.forward_heavy_rpc().unwrap().order, vec![1, 2, 0]);
    assert_eq!(r.forward_heavy_rpc().unwrap().order, vec![2, 0, 1]);
    r.nodes[1].health.status = NodeStatus::Down.code();
    assert_eq!(r.forward_heavy_rpc().unwrap().order, vec![2, 0]);
    r.heavy_rpc_counter = usize::MAX;
    r.forward_heavy_rpc().unwrap();
    assert_eq!(r.heavy_rpc_counter, 0);
}

#[test]
fn forward_errors_name_the_node() {
    let e = |o| forward_result("fra", o).err().unwrap();
    assert_eq!(e(UpstreamOutcome::TimedOut), "Upstream fra timeout after 8s");
    assert_eq!(e(UpstreamOutcome::Failed("gone".to_string())), "Upstream fra error: gone");
    assert_eq!(e(UpstreamOutcome::BodyFailed("cut".to_string())), "Body read error: cut");
    assert_eq!(e(UpstreamOutcome::NotBuilt("bad".to_string())), "Request build error: bad");
    let ok = forward_result("fra", UpstreamOutcome::Answered(reply("x"))).unwrap();
    assert_eq!((ok.status, ok.body), (200, b"x".to_vec()));
}

#[test]
fn urls_are_checked_before_use() {
    assert!(check_url("http://127.0.0.1:8899/path").is_ok());
    assert_eq!(check_url("not a url").err().unwrap(), "Invalid URL: invalid uri character");
    assert_eq!(check_url("").err().unwrap(), "Invalid URL: empty string");
    assert_eq!(url_error(Some("why".to_string())), Some("Invalid URL: why".to_string()));
    assert_eq!(url_error(None), None);
}

#[test]
fn one_caller_connects_and_the_others_wait() {
    let mut c = ManagedChannel::new("fra".to_string(), "http://127.0.0.1:1").unwrap();
    assert_eq!(c.get(), ChannelNext::Connect);
    assert_eq!(c.get(), ChannelNext::Wait);
    assert_eq!(c.reconnect(), ChannelNext::Wait);
    let e = c.connect_done(Err("refused".to_string())).err().unwrap();
    assert_eq!(e.code, GrpcCode::Unavailable);
    assert_eq!(e.message, "gRPC connect failed for fra: refused");
    assert_eq!(c.waited(true).err().unwrap().message, "gRPC reconnect failed for fra");
    assert_eq!(c.waited(false).err().unwrap().message, "gRPC reconnect timed out for fra");
    assert_eq!(c.get(), ChannelNext::Connect);
    assert!(c.connect_done(Ok(())).is_ok());
    assert_eq!(c.get(), ChannelNext::Use);
    assert!(c.waited(true).is_ok());
    c.invalidate();
    assert_eq!(c.get(), ChannelNext::Connect);
}

#[test]
fn bad_grpc_url_is_reported() {
    let e = ManagedChannel::new("fra".to_string(), "a b").err().unwrap();
    assert_eq!(e, "Invalid gRPC URL for fra: invalid uri character");
    let why = Some("why".to_string());
    let e = ManagedChannel::with_refusal("ny".to_string(), "http://a", why).err().unwrap();
    assert_eq!(e, "Invalid gRPC URL for ny: why");
}

#[test]
fn later_node_with_an_id_is_the_one_that_is_connected_to() {
    let mut nodes = vec![node_config("a", 1), node_config("a", 1), node_config("a", 1)];
    nodes[0].grpc_url = "http://first:1".to_string();
    nodes[1].grpc_url = "http://second:1".to_string();
    nodes[2].grpc_url = "a b".to_string();
    let p = GrpcPool::new(&nodes, &ids(&["a"]));
    assert_eq!(p.get_channel("a").unwrap().url, "http://second:1");
    assert_eq!(p.channels.entries.len(), 1);
    nodes[1].grpc_url = "c d".to_string();
    let p = GrpcPool::new(&nodes, &ids(&["a"]));
    assert_eq!(p.get_channel("a").unwrap().url, "http://first:1");
    let p = GrpcPool::new(&nodes, &ids(&["b"]));
    assert!(p.get_channel("a").is_none());
}

#[test]
fn pool_holds_eligible_nodes_only() {
    let nodes = vec![node_config("a", 1), node_config("b", 1), node_config("c", 1)];
    let mut p = GrpcPool::new(&nodes, &ids(&["a", "c"]));
    assert!(p.get_channel("a").is_some());
    assert!(p.get_channel("b").is_none());
    assert_eq!(p.request("a"), Some(ChannelNext::Connect));
    assert_eq!(p.request("a"), Some(ChannelNext::Wait));
    assert_eq!(p.request("c"), Some(ChannelNext::Connect));
    assert_eq!(p.request("b"), None);
    assert!(p.connect_done("a", Ok(())).unwrap().is_ok());
    assert!(p.connect_done("b", Ok(())).is_none());
    assert_eq!(p.request("a"), Some(ChannelNext::Use));
    p.invalidate("a");
    p.invalidate("nobody");
    assert_eq!(p.request("a"), Some(ChannelNext::Connect));
}
