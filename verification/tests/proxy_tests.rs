use solana_rpc_cluster::cluster::grpc_pool::GrpcPool;
use solana_rpc_cluster::cluster::health::{NodeHealth, NodeStatus};
use solana_rpc_cluster::cluster::router::{Reply, Router};
use solana_rpc_cluster::cluster::NodeEntry;
use solana_rpc_cluster::config::{
    ApiKeyEntry, Config, CpuConfig, FirewallConfig, GeneralConfig, GrpcConfig, HealthConfig,
    NodeConfig, RateLimitConfig, RoutingConfig, WhitelistEntry,
};
use solana_rpc_cluster::names::NameMap;
use solana_rpc_cluster::net::IpAddr;
use solana_rpc_cluster::proxy::gate::Gate;
use solana_rpc_cluster::proxy::geyser::{SubscribeRequest, UpdateOneof};
use solana_rpc_cluster::proxy::grpc_arpc;
use solana_rpc_cluster::proxy::grpc_arpc::ArpcVersion;
use solana_rpc_cluster::proxy::grpc_mux::ChannelSource;
use solana_rpc_cluster::proxy::grpc_yellowstone;
use solana_rpc_cluster::proxy::grpc_yellowstone::{FirstMessage, Route};
use solana_rpc_cluster::proxy::http_rpc::{
    classify_rpc, error_with_quoted, json_error_response, reply_headers, route_of, HttpRequest,
    RpcMethod, RpcRoute,
};
use solana_rpc_cluster::proxy::status::GrpcCode;
use solana_rpc_cluster::proxy::websocket;
use solana_rpc_cluster::proxy::websocket::{WsDecision, WsMessage};
use solana_rpc_cluster::stats::Conn;

const FRIEND: IpAddr = IpAddr::V4(1);
const STRANGER: IpAddr = IpAddr::V4(2);

fn config(rps: u32, tps: u32) -> Config {
    Config {
        general: GeneralConfig {
            rpc_bind: String::new(),
            ws_bind: String::new(),
            grpc_bind: String::new(),
            arpc_bind: String::new(),
            dashboard_bind: String::new(),
            dashboard_user: String::new(),
            dashboard_pass: String::new(),
            data_dir: String::new(),
            log_level: String::new(),
        },
        nodes: Vec::new(),
        rate_limits: RateLimitConfig {
            global_rps: 0,
            global_tps: 0,
            default_rps: rps,
            default_tps: tps,
            default_burst_rps: 0,
            default_burst_tps: 0,
        },
        cpu: CpuConfig::default(),
        firewall: FirewallConfig::default(),
        health: HealthConfig::default(),
        grpc: GrpcConfig::default(),
        routing: RoutingConfig::default(),
        whitelist: vec![WhitelistEntry {
            ip: FRIEND,
            label: String::new(),
            rps: None,
            tps: None,
            burst_rps: None,
            burst_tps: None,
        }],
        api_keys: vec![ApiKeyEntry {
            key: "good".to_string(),
            label: String::new(),
            rps: None,
            tps: None,
            burst_rps: None,
            burst_tps: None,
            created_at: String::new(),
            revoked: false,
        }],
        upstream: None,
    }
}

fn node(id: &str) -> NodeEntry {
    NodeEntry {
        config: NodeConfig {
            id: id.to_string(),
            label: String::new(),
            region: String::new(),
            priority: 1,
            rpc_url: String::new(),
            ws_url: String::new(),
            grpc_url: format!("http://{}:1", id),
            arpc_url: format!("http://{}:2", id),
            grpc_x_token: String::new(),
            iris_url: None,
            rpc_pool_max_idle: 1,
            rpc_pool_idle_timeout_secs: 1,
        },
        health: NodeHealth::new(id.to_string()),
        client: 0,
    }
}

fn router(ids: &[&str]) -> Router {
    let names: Vec<String> = ids.iter().map(|s| s.to_string()).collect();
    Router::new(ids.iter().map(|id| node(id)).collect(), names.clone(), names)
}

fn request() -> SubscribeRequest {
    SubscribeRequest {
        accounts: NameMap::new(),
        slots: NameMap::new(),
        transactions: NameMap::new(),
        transactions_status: Vec::new(),
        blocks: Vec::new(),
        blocks_meta: Vec::new(),
        entry: Vec::new(),
        commitment: None,
        ping: None,
    }
}

fn text(r: &Reply) -> String {
    String::from_utf8(r.body.clone()).unwrap()
}

fn key(k: &str) -> Option<String> {
    Some(k.to_string())
}

#[test]
fn methods_are_told_by_what_the_body_holds() {
    assert_eq!(classify_rpc(br#"{"method":"sendTransaction"}"#), RpcMethod::SendTransaction);
    assert_eq!(
        classify_rpc(br#"{"method":"sendTransactionBatch"}"#),
        RpcMethod::SendTransactionBatch
    );
    for m in [
        "getProgramAccounts",
        "getTokenAccountsByOwner",
        "getTokenAccountsByDelegate",
        "getTokenLargestAccounts",
        "getLargestAccounts",
        "getSupply",
    ] {
        assert_eq!(classify_rpc(m.as_bytes()), RpcMethod::HeavyReadRpc);
    }
    assert_eq!(classify_rpc(b"getSlot"), RpcMethod::ReadRpc);
    assert_eq!(classify_rpc(b""), RpcMethod::ReadRpc);
    assert_eq!(classify_rpc(b"getSupply sendTransaction"), RpcMethod::SendTransaction);
}

#[test]
fn errors_are_json_rpc_objects() {
    let r = json_error_response(403, "Unauthorized");
    assert_eq!(r.status, 403);
    assert_eq!(
        text(&r),
        r#"{"error":{"code":-403,"message":"Unauthorized"},"id":null,"jsonrpc":"2.0"}"#
    );
    let r = json_error_response(502, "a \"quoted\"\nline");
    assert_eq!(
        text(&r),
        r#"{"error":{"code":-502,"message":"a \"quoted\"\nline"},"id":null,"jsonrpc":"2.0"}"#
    );
    let v: serde_json::Value = serde_json::from_slice(&r.body).unwrap();
    assert_eq!(v["error"]["message"], "a \"quoted\"\nline");
    assert_eq!(
        text(&error_with_quoted(429, "\"x\"")),
        r#"{"error":{"code":-429,"message":"x"},"id":null,"jsonrpc":"2.0"}"#
    );
    assert_eq!(reply_headers()[0], ("content-type", "application/json"));
    assert_eq!(reply_headers()[1], ("access-control-allow-origin", "*"));
}

#[test]
fn stranger_without_a_key_is_refused() {
    let gate = Gate::new(config(10, 10));
    assert!(HttpRequest::open(&gate, FRIEND, None).is_ok());
    assert!(HttpRequest::open(&gate, STRANGER, key("good")).is_ok());
    assert!(HttpRequest::open(&gate, FRIEND, key("bad")).is_ok());
    for k in [None, key("bad")] {
        let r = HttpRequest::open(&gate, STRANGER, k).err().unwrap();
        assert_eq!(r.status, 403);
        assert!(text(&r).contains("Unauthorized"));
    }
}

#[test]
fn request_is_counted_while_it_runs() {
    let mut gate = Gate::new(config(10, 10));
    let req = HttpRequest::open(&gate, FRIEND, None).ok().unwrap();
    let body = b"sendTransaction".to_vec();
    let m = req.handle_request(&mut gate, Some(&body), 5).ok().unwrap();
    assert_eq!(m, RpcMethod::SendTransaction);
    let s = gate.stats.get_or_create(FRIEND);
    assert_eq!((s.active_rpc_conns, s.total_rpc_requests, s.total_tx_sends), (1, 1, 1));
    let r = req.finish(&mut gate, Ok(Reply { status: 201, body: b"x".to_vec() }));
    assert_eq!((r.status, r.body), (201, b"x".to_vec()));
    assert_eq!(gate.stats.get_or_create(FRIEND).active_rpc_conns, 0);
    assert_eq!(gate.stats.get_or_create(FRIEND).error_count, 0);
}

#[test]
fn upstream_error_becomes_bad_gateway() {
    let mut gate = Gate::new(config(10, 10));
    let req = HttpRequest::open(&gate, FRIEND, None).ok().unwrap();
    req.handle_request(&mut gate, Some(&b"getSlot".to_vec()), 5).ok().unwrap();
    let r = req.finish(&mut gate, Err("No healthy nodes".to_string()));
    assert_eq!(r.status, 502);
    assert!(text(&r).contains("No healthy nodes"));
    let s = gate.stats.get_or_create(FRIEND);
    assert_eq!((s.active_rpc_conns, s.error_count), (0, 1));
}

#[test]
fn body_that_is_too_long_is_refused() {
    let mut gate = Gate::new(config(10, 10));
    let req = HttpRequest::open(&gate, FRIEND, None).ok().unwrap();
    let long = vec![0u8; 1024 * 1024 + 1];
    let r = req.handle_request(&mut gate, Some(&long), 5).err().unwrap();
    assert_eq!(r.status, 400);
    assert!(text(&r).contains("Request body too large"));
    assert_eq!(req.handle_request(&mut gate, None, 5).err().unwrap().status, 400);
    let just = vec![0u8; 1024 * 1024];
    assert!(req.handle_request(&mut gate, Some(&just), 5).is_ok());
}

#[test]
fn limits_answer_too_many_requests() {
    let mut gate = Gate::new(config(1, 1));
    let req = HttpRequest::open(&gate, FRIEND, None).ok().unwrap();
    let body = b"getSlot".to_vec();
    assert!(req.handle_request(&mut gate, Some(&body), 5).is_ok());
    let r = req.handle_request(&mut gate, Some(&body), 5).err().unwrap();
    assert_eq!(r.status, 429);
    assert!(text(&r).contains("RPS rate limit exceeded"));
    assert_eq!(gate.stats.get_or_create(FRIEND).rate_limited_count, 1);
    let mut gate = Gate::new(config(9, 1));
    let body = b"sendTransaction".to_vec();
    assert!(req.handle_request(&mut gate, Some(&body), 5).is_ok());
    let r = req.handle_request(&mut gate, Some(&body), 5).err().unwrap();
    assert!(text(&r).contains("TPS rate limit exceeded"));
}

#[test]
fn key_limits_leave_no_trace_in_the_address() {
    let mut gate = Gate::new(config(1, 1));
    let req = HttpRequest::open(&gate, STRANGER, key("good")).ok().unwrap();
    let body = b"getSlot".to_vec();
    assert!(req.handle_request(&mut gate, Some(&body), 5).is_ok());
    assert_eq!(req.handle_request(&mut gate, Some(&body), 5).err().unwrap().status, 429);
    assert_eq!(gate.stats.get_or_create(STRANGER).rate_limited_count, 0);
}

#[test]
fn key_that_is_not_in_use_leaves_the_limit_of_the_address() {
    let mut gate = Gate::new(config(1, 1));
    let req = HttpRequest::open(&gate, FRIEND, key("bad")).ok().unwrap();
    let body = b"getSlot".to_vec();
    assert!(req.handle_request(&mut gate, Some(&body), 5).is_ok());
    let r = req.handle_request(&mut gate, Some(&body), 5).err().unwrap();
    assert_eq!(r.status, 429);
    assert!(text(&r).contains("RPS rate limit exceeded"));
    assert_eq!(gate.stats.get_or_create(FRIEND).rate_limited_count, 1);
    let plain = HttpRequest::open(&gate, FRIEND, None).ok().unwrap();
    assert_eq!(plain.handle_request(&mut gate, Some(&body), 5).err().unwrap().status, 429);
}

#[test]
fn kind_of_a_request_says_how_it_is_handed_on() {
    assert_eq!(route_of(RpcMethod::SendTransaction), RpcRoute::FanOut);
    assert_eq!(route_of(RpcMethod::SendTransactionBatch), RpcRoute::FanOut);
    assert_eq!(route_of(RpcMethod::HeavyReadRpc), RpcRoute::RoundRobin);
    assert_eq!(route_of(RpcMethod::ReadRpc), RpcRoute::ByPriority);
}

#[test]
fn new_config_is_put_in_force() {
    let mut gate = Gate::new(config(1, 1));
    gate.stats.record_error(FRIEND);
    let mut c = config(5, 5);
    c.whitelist[0].ip = STRANGER;
    c.api_keys.clear();
    gate.apply_config(c);
    assert!(gate.whitelist.is_allowed(&STRANGER));
    assert!(!gate.whitelist.is_allowed(&FRIEND));
    assert!(!gate.key_in_use(Some("good")));
    assert_eq!(gate.stats.get_or_create(FRIEND).error_count, 1);
}

#[test]
fn websocket_from_a_stranger_is_ignored() {
    let mut gate = Gate::new(config(1, 1));
    let r = router(&["a"]);
    assert!(matches!(
        websocket::handle_connection(&mut gate, &r, STRANGER),
        WsDecision::Ignore
    ));
    assert_eq!(gate.stats.global_snapshot(0).connected_ips, 0);
    match websocket::handle_connection(&mut gate, &r, FRIEND) {
        WsDecision::Serve(n) => assert_eq!(n.config.id, "a"),
        _ => panic!("expected to be served"),
    }
    assert!(matches!(websocket::handle_connection(&mut gate, &r, FRIEND), WsDecision::Ignore));
    assert_eq!(gate.stats.get_or_create(FRIEND).rate_limited_count, 1);
}

#[test]
fn websocket_without_nodes_fails() {
    let mut gate = Gate::new(config(1, 1));
    match websocket::on_limit(&mut gate, &router(&[]), FRIEND, Ok(())) {
        WsDecision::Fail(e) => assert_eq!(e, "No healthy nodes for WebSocket"),
        _ => panic!("expected a failure"),
    }
}

#[test]
fn only_data_counts_as_websocket_messages() {
    let mut gate = Gate::new(config(1, 1));
    websocket::on_accepted(&mut gate, FRIEND);
    for m in [WsMessage::Data, WsMessage::Ping, WsMessage::Pong, WsMessage::Close, WsMessage::Data] {
        websocket::on_upstream_message(&mut gate, FRIEND, m);
    }
    let s = gate.stats.get_or_create(FRIEND);
    assert_eq!((s.total_ws_messages, s.active_ws_conns), (2, 1));
    websocket::on_closed(&mut gate, FRIEND);
    assert_eq!(gate.stats.get_or_create(FRIEND).active_ws_conns, 0);
}

#[test]
fn grpc_subscription_needs_access_and_room() {
    let mut gate = Gate::new(config(1, 1));
    let e = grpc_yellowstone::subscribe(&mut gate, None, None).err().unwrap();
    assert_eq!((e.code, e.message.as_str()), (GrpcCode::Internal, "Cannot determine client IP"));
    let e = grpc_yellowstone::subscribe(&mut gate, Some(STRANGER), Some("bad")).err().unwrap();
    assert_eq!((e.code, e.message.as_str()), (GrpcCode::PermissionDenied, "Unauthorized"));
    assert!(grpc_yellowstone::subscribe(&mut gate, Some(STRANGER), Some("good")).is_ok());
    assert_eq!(grpc_yellowstone::subscribe(&mut gate, Some(FRIEND), None).ok(), Some(FRIEND));
    assert_eq!(gate.stats.get_or_create(FRIEND).total_grpc_requests, 1);
    for _ in 0..500 {
        gate.stats.enter(FRIEND, Conn::Grpc);
    }
    let e = grpc_yellowstone::subscribe(&mut gate, Some(FRIEND), None).err().unwrap();
    assert_eq!(e.code, GrpcCode::ResourceExhausted);
    assert_eq!(e.message, "Too many concurrent gRPC streams (500), max 500");
    assert_eq!(gate.stats.get_or_create(FRIEND).total_grpc_requests, 1);
    assert!(grpc_yellowstone::check_access(&gate, Some(FRIEND), None).is_ok());
}

#[test]
fn first_message_decides_the_route() {
    let route = |m| grpc_yellowstone::route(&m);
    assert!(matches!(route(FirstMessage::Request(request())), Ok(Route::Direct)));
    let mut r = request();
    r.entry = vec!["e".to_string()];
    assert!(matches!(route(FirstMessage::Request(r)), Ok(Route::Mux(_))));
    let mut r = request();
    r.entry = vec!["e".to_string()];
    r.blocks = vec!["b".to_string()];
    assert!(matches!(route(FirstMessage::Request(r)), Ok(Route::Direct)));
    let e = route(FirstMessage::Failed("cut".to_string())).err().unwrap();
    assert_eq!((e.code, e.message.as_str()), (GrpcCode::Internal, "Stream error: cut"));
    let e = route(FirstMessage::Missing).err().unwrap();
    assert_eq!((e.code, e.message.as_str()), (GrpcCode::InvalidArgument, "Empty subscribe stream"));
}

#[test]
fn ping_is_answered_with_its_id() {
    let mut r = request();
    assert!(grpc_yellowstone::pong_for(&r).is_none());
    r.ping = Some(42);
    let u = grpc_yellowstone::pong_for(&r).unwrap();
    assert!(matches!(u.update_oneof, Some(UpdateOneof::Pong { id: 42 })));
    assert!(u.filters.is_empty());
}

#[test]
fn grpc_upstream_is_picked_and_checked() {
    let mut r = router(&["a"]);
    let nodes = vec![node("a").config];
    let pool = GrpcPool::new(&nodes, &vec!["a".to_string()]);
    let (n, source) = grpc_yellowstone::get_upstream(&r, &pool).ok().unwrap();
    assert_eq!((n.config.id.as_str(), source), ("a", ChannelSource::Pool));
    let empty = GrpcPool::new(&nodes, &Vec::new());
    let (_, source) = grpc_yellowstone::get_upstream(&r, &empty).ok().unwrap();
    assert_eq!(source, ChannelSource::Fresh);
    r.nodes[0].config.grpc_url = "a b".to_string();
    let e = grpc_yellowstone::get_upstream(&r, &empty).err().unwrap();
    assert_eq!((e.code, e.message.as_str()), (GrpcCode::Internal, "Invalid URL: invalid uri character"));
    r.nodes[0].health.status = NodeStatus::Down.code();
    let e = grpc_yellowstone::get_upstream(&r, &empty).err().unwrap();
    assert_eq!((e.code, e.message.as_str()), (GrpcCode::Unavailable, "No healthy gRPC nodes"));
    assert_eq!(grpc_yellowstone::connect_failed("x").message, "Connect failed: x");
    assert!(grpc_yellowstone::url_refused(None).is_ok());
}

#[test]
fn arpc_access_by_key_or_within_the_limit() {
    let mut gate = Gate::new(config(1, 1));
    for _ in 0..3 {
        assert!(grpc_arpc::check_access(&mut gate, STRANGER, Some("good")).is_ok());
    }
    assert!(grpc_arpc::check_access(&mut gate, FRIEND, Some("bad")).is_ok());
    let e = grpc_arpc::check_access(&mut gate, FRIEND, None).err().unwrap();
    assert_eq!((e.code, e.message.as_str()), (GrpcCode::ResourceExhausted, "Rate limit exceeded"));
    assert_eq!(gate.stats.get_or_create(FRIEND).rate_limited_count, 1);
    let e = grpc_arpc::check_access(&mut gate, STRANGER, None).err().unwrap();
    assert_eq!((e.code, e.message.as_str()), (GrpcCode::PermissionDenied, "Unauthorized"));
}

#[test]
fn arpc_counts_requests_of_the_first_version() {
    let mut gate = Gate::new(config(100, 1));
    assert!(grpc_arpc::subscribe(&mut gate, ArpcVersion::V1, Some(FRIEND), None).is_ok());
    assert!(grpc_arpc::subscribe(&mut gate, ArpcVersion::V2, Some(FRIEND), None).is_ok());
    assert_eq!(gate.stats.get_or_create(FRIEND).total_arpc_requests, 1);
    let e = grpc_arpc::subscribe(&mut gate, ArpcVersion::V2, None, None).err().unwrap();
    assert_eq!(e.code, GrpcCode::Internal);
    assert_eq!(e.message, "Cannot determine client IP");
}

#[test]
fn arpc_upstream_messages_name_the_version() {
    let empty = router(&[]);
    let e = grpc_arpc::get_upstream(&empty, ArpcVersion::V1).err().unwrap();
    assert_eq!(e.message, "No healthy aRPC nodes");
    let e = grpc_arpc::get_upstream(&empty, ArpcVersion::V2).err().unwrap();
    assert_eq!(e.message, "No healthy aRPC v2 nodes");
    let mut r = router(&["a"]);
    assert_eq!(grpc_arpc::get_upstream(&r, ArpcVersion::V1).ok().unwrap().config.id, "a");
    r.nodes[0].config.arpc_url = String::new();
    let e = grpc_arpc::get_upstream(&r, ArpcVersion::V1).err().unwrap();
    assert_eq!((e.code, e.message.as_str()), (GrpcCode::Internal, "Invalid URL: empty string"));
    assert_eq!(grpc_arpc::connect_failed(ArpcVersion::V1, "x").message, "aRPC connect failed: x");
    assert_eq!(grpc_arpc::connect_failed(ArpcVersion::V2, "x").message, "aRPC v2 connect failed: x");
    assert_eq!(grpc_arpc::connect_failed(ArpcVersion::V2, "x").code, GrpcCode::Unavailable);
}
