use solana_rpc_cluster::cluster::ClusterState;
use solana_rpc_cluster::config::{
    default_arpc_bind, default_burst_rps, default_burst_tps, default_chain_name,
    default_dashboard_bind, default_dashboard_pass, default_dashboard_user, default_data_dir,
    default_fw_backend, default_global_rps, default_global_tps, default_grpc_bind,
    default_log_level, default_per_ip_rps, default_per_ip_tps, default_pool_idle_timeout,
    default_pool_max_idle, default_priority, default_rpc_bind, default_ws_bind, ApiKeyEntry,
    Config, ConfigError, CpuConfig, FirewallConfig, GeneralConfig, GrpcConfig, HealthConfig,
    LegacyUpstreamConfig, NodeConfig, RateLimitConfig, RoutingConfig, WhitelistEntry,
};
use solana_rpc_cluster::net::IpAddr;
use solana_rpc_cluster::runtime::{client_ports, worker_threads, CorePinner};

fn general() -> GeneralConfig {
    GeneralConfig {
        rpc_bind: default_rpc_bind(),
        ws_bind: default_ws_bind(),
        grpc_bind: default_grpc_bind(),
        arpc_bind: default_arpc_bind(),
        dashboard_bind: default_dashboard_bind(),
        dashboard_user: default_dashboard_user(),
        dashboard_pass: default_dashboard_pass(),
        data_dir: default_data_dir(),
        log_level: default_log_level(),
    }
}

fn limits() -> RateLimitConfig {
    RateLimitConfig {
        global_rps: default_global_rps(),
        global_tps: default_global_tps(),
        default_rps: default_per_ip_rps(),
        default_tps: default_per_ip_tps(),
        default_burst_rps: default_burst_rps(),
        default_burst_tps: default_burst_tps(),
    }
}

fn node(id: &str, priority: u32) -> NodeConfig {
    NodeConfig {
        id: id.to_string(),
        label: String::new(),
        region: String::new(),
        priority,
        rpc_url: format!("http://{}:8899", id),
        ws_url: format!("ws://{}:8900", id),
        grpc_url: format!("http://{}:10101", id),
        arpc_url: format!("http://{}:20202", id),
        grpc_x_token: String::new(),
        iris_url: None,
        rpc_pool_max_idle: default_pool_max_idle(),
        rpc_pool_idle_timeout_secs: default_pool_idle_timeout(),
    }
}

fn entry(ip: IpAddr, rps: Option<u32>, tps: Option<u32>) -> WhitelistEntry {
    WhitelistEntry { ip, label: String::new(), rps, tps, burst_rps: None, burst_tps: None }
}

fn config(nodes: Vec<NodeConfig>) -> Config {
    Config {
        general: general(),
        nodes,
        rate_limits: limits(),
        cpu: CpuConfig::default(),
        firewall: FirewallConfig::default(),
        health: HealthConfig::default(),
        grpc: GrpcConfig::default(),
        routing: RoutingConfig::default(),
        whitelist: Vec::new(),
        api_keys: Vec::new(),
        upstream: None,
    }
}

#[test]
fn defaults_are_filled_in() {
    assert_eq!(default_rpc_bind(), "0.0.0.0:8899");
    assert_eq!(default_ws_bind(), "0.0.0.0:8900");
    assert_eq!(default_grpc_bind(), "0.0.0.0:10101");
    assert_eq!(default_arpc_bind(), "0.0.0.0:20202");
    assert_eq!(default_dashboard_bind(), "127.0.0.1:9000");
    assert_eq!(default_data_dir(), "/var/lib/solana-rpc-cluster");
    assert_eq!(default_fw_backend(), "nftables");
    assert_eq!(default_chain_name(), "solana-rpc-cluster");
    assert_eq!(default_priority(), 10);
    let h = HealthConfig::default();
    assert_eq!((h.check_interval_secs, h.unhealthy_threshold, h.healthy_threshold), (5, 3, 2));
    assert_eq!(h.timeout_ms, 3000);
    let g = GrpcConfig::default();
    assert_eq!(g.connection_window_bytes, 16777216);
    assert_eq!(g.stream_window_bytes, 4194304);
    assert_eq!(g.broadcast_capacity, 65536);
    assert!(g.adaptive_window && g.multi_region_enabled);
    assert_eq!((g.dedup_window_secs, g.dedup_eviction_interval_secs), (30, 5));
}

#[test]
fn missing_firewall_section_leaves_names_empty() {
    let f = FirewallConfig::default();
    assert!(!f.enabled);
    assert_eq!(f.backend, "");
    assert_eq!(f.chain_name, "");
}

#[test]
fn legacy_upstream_becomes_the_only_node() {
    let mut c = config(Vec::new());
    c.upstream = Some(LegacyUpstreamConfig {
        rpc_url: "http://a".to_string(),
        ws_url: "ws://a".to_string(),
        grpc_url: "http://b".to_string(),
        arpc_url: "http://c".to_string(),
        grpc_x_token: "t".to_string(),
        rpc_pool_max_idle: 7,
        rpc_pool_idle_timeout_secs: 9,
    });
    assert!(c.totals_fit());
    let (c, _) = Config::load(c).unwrap();
    assert!(c.upstream.is_none());
    assert_eq!(c.nodes.len(), 1);
    let n = &c.nodes[0];
    assert_eq!((n.id.as_str(), n.label.as_str(), n.region.as_str()), ("primary", "Primary", "default"));
    assert_eq!(n.priority, 1);
    assert_eq!((n.rpc_url.as_str(), n.ws_url.as_str()), ("http://a", "ws://a"));
    assert_eq!((n.grpc_url.as_str(), n.arpc_url.as_str()), ("http://b", "http://c"));
    assert_eq!(n.grpc_x_token, "t");
    assert!(n.iris_url.is_none());
    assert_eq!((n.rpc_pool_max_idle, n.rpc_pool_idle_timeout_secs), (7, 9));

    let (again, _) = Config::load(c.clone()).unwrap();
    assert!(again.upstream.is_none());
    assert_eq!(format!("{:?}", again), format!("{:?}", c));
}

#[test]
fn nodes_win_over_the_legacy_upstream() {
    let mut c = config(vec![node("fra", 1)]);
    c.upstream = Some(LegacyUpstreamConfig {
        rpc_url: String::new(),
        ws_url: String::new(),
        grpc_url: String::new(),
        arpc_url: String::new(),
        grpc_x_token: String::new(),
        rpc_pool_max_idle: 0,
        rpc_pool_idle_timeout_secs: 0,
    });
    let (c, _) = Config::load(c).unwrap();
    assert!(c.upstream.is_none());
    assert_eq!(c.nodes.len(), 1);
    assert_eq!(c.nodes[0].id, "fra");
}

#[test]
fn config_without_nodes_is_refused() {
    let e = Config::load(config(Vec::new())).err().unwrap();
    assert_eq!(e, ConfigError::NoNodes);
    assert_eq!(e.message(), "At least one [[nodes]] entry is required");
    assert_eq!(config(Vec::new()).validate().err(), Some(ConfigError::NoNodes));

    let mut c = config(Vec::new());
    c.whitelist = vec![
        entry(IpAddr::V4(1), Some(u32::MAX), None),
        entry(IpAddr::V4(2), Some(1), None),
    ];
    assert!(!c.totals_fit());
    assert_eq!(c.validate().err(), Some(ConfigError::NoNodes));
    assert_eq!(Config::load(c).err(), Some(ConfigError::NoNodes));
}

#[test]
fn allocation_adds_up_with_defaults() {
    let mut c = config(vec![node("a", 1)]);
    c.whitelist = vec![
        entry(IpAddr::V4(1), Some(1100), None),
        entry(IpAddr::V4(2), None, Some(10)),
    ];
    let a = c.validate().unwrap();
    assert_eq!(a.total_rps, 1300);
    assert_eq!(a.total_tps, 60);
    assert!(a.rps_exceeds_global);
    assert!(!a.tps_exceeds_global);
}

#[test]
fn totals_beyond_the_type_do_not_fit() {
    let mut c = config(vec![node("a", 1)]);
    c.whitelist = vec![
        entry(IpAddr::V4(1), Some(u32::MAX), None),
        entry(IpAddr::V4(2), Some(1), None),
    ];
    assert!(!c.totals_fit());
    c.whitelist[1].rps = Some(0);
    assert!(c.totals_fit());
}

#[test]
fn limits_beyond_the_type_do_not_fit() {
    let mut c = config(vec![node("a", 1)]);
    assert!(c.limits_fit());
    c.whitelist = vec![entry(IpAddr::V4(1), Some(u32::MAX), None)];
    assert!(!c.limits_fit());
    c.whitelist = Vec::new();
    c.api_keys = vec![ApiKeyEntry {
        key: "k".to_string(),
        label: String::new(),
        rps: None,
        tps: Some(u32::MAX),
        burst_rps: None,
        burst_tps: Some(1),
        created_at: String::new(),
        revoked: false,
    }];
    assert!(!c.limits_fit());
    c.api_keys[0].revoked = true;
    assert!(c.limits_fit());
}

#[test]
fn first_entry_for_an_address_counts() {
    let mut c = config(vec![node("a", 1)]);
    let ip = IpAddr::V6(5);
    c.whitelist = vec![entry(ip, Some(7), None), entry(ip, Some(8), Some(9))];
    c.whitelist[0].burst_tps = Some(3);
    assert_eq!(c.get_ip_rps(&ip), 7);
    assert_eq!(c.get_ip_tps(&ip), 50);
    assert_eq!(c.get_ip_burst_rps(&ip), 20);
    assert_eq!(c.get_ip_burst_tps(&ip), 3);
    assert_eq!(c.get_ip_rps(&IpAddr::V4(5)), 200);
    let set = c.whitelist_set();
    assert!(set.contains(&ip));
    assert!(!set.contains(&IpAddr::V4(5)));
    assert_eq!(set.to_vec(), vec![ip]);
}

#[test]
fn send_targets_are_split_and_trimmed() {
    let mut c = config(vec![node("fra", 1), node("ny", 2)]);
    assert_eq!(c.get_send_tx_node_ids(), vec!["fra", "ny"]);
    c.routing.send_tx_targets = " fra ,, \tny\n,".to_string();
    assert_eq!(c.get_send_tx_node_ids(), vec!["fra", "ny"]);
    c.routing.send_tx_targets = "All".to_string();
    assert_eq!(c.get_send_tx_node_ids(), vec!["All"]);
    c.routing.send_tx_targets = " , ".to_string();
    assert_eq!(c.get_send_tx_node_ids(), Vec::<String>::new());
}

#[test]
fn grpc_regions_default_to_all_nodes() {
    let mut c = config(vec![node("fra", 1), node("ny", 2)]);
    assert_eq!(c.get_grpc_eligible_node_ids(), vec!["fra", "ny"]);
}

#[test]
fn grpc_is_served_from_the_listed_regions() {
    let mut c = config(vec![node("n1", 1), node("n2", 2), node("n3", 3)]);
    c.nodes[0].region = "eu".to_string();
    c.nodes[1].region = "us".to_string();
    c.nodes[2].region = "eu".to_string();
    c.routing.grpc_regions = vec!["eu".to_string()];
    assert_eq!(c.get_grpc_eligible_node_ids(), vec!["n1", "n3"]);
    c.routing.grpc_regions = vec!["n2".to_string()];
    assert_eq!(c.get_grpc_eligible_node_ids(), Vec::<String>::new());
    c.routing.grpc_regions = vec!["us".to_string(), "eu".to_string()];
    assert_eq!(c.get_grpc_eligible_node_ids(), vec!["n1", "n2", "n3"]);
    c.routing.grpc_regions = vec!["us".to_string()];
    let s = ClusterState::new(&c);
    assert_eq!(s.router.pick_grpc_node().unwrap().config.id, "n2");
}

#[test]
fn cluster_starts_with_healthy_nodes() {
    let mut c = config(vec![node("fra", 2), node("ny", 1)]);
    c.nodes[1].grpc_url = "not a url".to_string();
    let s = ClusterState::new(&c);
    assert_eq!(s.router.nodes.len(), 2);
    assert_eq!(s.router.nodes[1].config.id, "ny");
    assert_eq!(s.router.nodes[1].client, 1);
    assert!(s.router.nodes[0].health.is_healthy());
    assert!(s.grpc_pool.get_channel("fra").is_some());
    assert!(s.grpc_pool.get_channel("ny").is_none());
    assert_eq!(s.health_checker.interval_secs(), 5);
}

#[test]
fn worker_threads_follow_config_then_cores_then_machine() {
    let mut cpu = CpuConfig::default();
    assert_eq!(worker_threads(&cpu, Some(16)), 16);
    assert_eq!(worker_threads(&cpu, None), 4);
    cpu.cores = vec![3, 5, 7];
    assert_eq!(worker_threads(&cpu, Some(16)), 3);
    cpu.worker_threads = Some(9);
    assert_eq!(worker_threads(&cpu, Some(16)), 9);
}

#[test]
fn cores_are_handed_out_in_turn() {
    let mut p = CorePinner::new(vec![3, 5]);
    assert_eq!(p.next_core(), Some(3));
    assert_eq!(p.next_core(), Some(5));
    assert_eq!(p.next_core(), Some(3));
    assert_eq!(CorePinner::new(Vec::new()).next_core(), None);
    assert_eq!(client_ports(), vec![8899, 8900, 10101, 20202]);
}
