use solana_rpc_cluster::cluster::health::{NodeHealth, NodeStatus};
use solana_rpc_cluster::cluster::NodeEntry;
use solana_rpc_cluster::config::{
    ApiKeyEntry, Config, CpuConfig, FirewallConfig, GeneralConfig, GrpcConfig, HealthConfig,
    NodeConfig, RateLimitConfig, RoutingConfig, WhitelistEntry,
};
use solana_rpc_cluster::dashboard::auth::{base64_decode, check_basic_auth};
use solana_rpc_cluster::dashboard::handlers::{
    add_ip, can_mask, count_active_keys, create_api_key, create_with_key, get_stats, health_check,
    last_msg_age_secs, list_api_keys, list_ips, list_nodes, mask_key, remove_ip, request_fits,
    revoke_api_key, update_ip, ws_stats, AddIpRequest, AdminError, CreateKeyRequest,
};
use solana_rpc_cluster::net::IpAddr;
use solana_rpc_cluster::proxy::gate::Gate;
use solana_rpc_cluster::proxy::geyser::{SubscribeUpdate, UpdateOneof};
use solana_rpc_cluster::proxy::grpc_mux::TrySend;
use solana_rpc_cluster::shadow::{
    build_request, load_wallets, request_kb, start_with, Churn, Counters, GrowPlan, ShadowEvent,
    ShadowRun, ShadowStep,
};

fn config() -> Config {
    Config {
        general: GeneralConfig {
            rpc_bind: String::new(),
            ws_bind: String::new(),
            grpc_bind: String::new(),
            arpc_bind: String::new(),
            dashboard_bind: String::new(),
            dashboard_user: String::new(),
            dashboard_pass: String::new(),
            data_dir: String::new(),
            log_level: String::new(),
        },
        nodes: Vec::new(),
        rate_limits: RateLimitConfig {
            global_rps: 0,
            global_tps: 0,
            default_rps: 1,
            default_tps: 2,
            default_burst_rps: 3,
            default_burst_tps: 4,
        },
        cpu: CpuConfig::default(),
        firewall: FirewallConfig::default(),
        health: HealthConfig::default(),
        grpc: GrpcConfig::default(),
        routing: RoutingConfig::default(),
        whitelist: vec![WhitelistEntry {
            ip: IpAddr::V4(1),
            label: "one".to_string(),
            rps: Some(10),
            tps: None,
            burst_rps: None,
            burst_tps: None,
        }],
        api_keys: vec![ApiKeyEntry {
            key: "sk_0123456789abcdef".to_string(),
            label: "k".to_string(),
            rps: None,
            tps: None,
            burst_rps: None,
            burst_tps: None,
            created_at: "then".to_string(),
            revoked: false,
        }],
        upstream: None,
    }
}

fn ask(ip: Option<IpAddr>, label: &str, rps: Option<u32>) -> AddIpRequest {
    AddIpRequest {
        ip,
        label: label.to_string(),
        rps,
        tps: None,
        burst_rps: None,
        burst_tps: None,
    }
}

fn ask_key() -> CreateKeyRequest {
    CreateKeyRequest {
        label: "new".to_string(),
        rps: Some(5),
        tps: None,
        burst_rps: None,
        burst_tps: None,
    }
}

fn node() -> NodeEntry {
    NodeEntry {
        config: NodeConfig {
            id: "fra".to_string(),
            label: "Frankfurt".to_string(),
            region: "eu".to_string(),
            priority: 1,
            rpc_url: String::new(),
            ws_url: String::new(),
            grpc_url: String::new(),
            arpc_url: String::new(),
            grpc_x_token: String::new(),
            iris_url: Some("http://iris".to_string()),
            rpc_pool_max_idle: 1,
            rpc_pool_idle_timeout_secs: 1,
        },
        health: NodeHealth::new("fra".to_string()),
        client: 0,
    }
}

fn update(u: UpdateOneof) -> SubscribeUpdate {
    SubscribeUpdate { filters: Vec::new(), update_oneof: Some(u) }
}

#[test]
fn base64_is_decoded() {
    assert_eq!(base64_decode(b""), Some(Vec::new()));
    assert_eq!(base64_decode(b"TQ=="), Some(b"M".to_vec()));
    assert_eq!(base64_decode(b"TWE="), Some(b"Ma".to_vec()));
    assert_eq!(base64_decode(b"TWFu"), Some(b"Man".to_vec()));
    assert_eq!(base64_decode(b"+/+/"), Some(vec![0xfb, 0xff, 0xbf]));
    assert_eq!(base64_decode(b"TWE"), Some(b"Ma".to_vec()));
    assert_eq!(base64_decode(b"T"), Some(Vec::new()));
    assert_eq!(base64_decode(b"TQ==!!"), Some(b"M".to_vec()));
    assert_eq!(base64_decode(b"T Q="), None);
    assert_eq!(base64_decode(b"-_"), None);
}

#[test]
fn right_credentials_open_the_dashboard() {
    assert!(check_basic_auth(Some("Basic YWRtaW46YWRtaW4="), "admin", "admin").is_ok());
    assert!(check_basic_auth(Some("Basic YWRtaW46YWRtaW5="), "admin", "admin").is_ok());
    assert!(check_basic_auth(Some("Basic YWRtaW46YTpi"), "admin", "a:b").is_ok());
    assert!(check_basic_auth(Some("Basic Og=="), "", "").is_ok());
}

#[test]
fn wrong_credentials_are_challenged() {
    for h in [
        None,
        Some(""),
        Some("YWRtaW46YWRtaW4="),
        Some("basic YWRtaW46YWRtaW4="),
        Some("Basic YWRtaW46YWRtaW8="),
        Some("Basic YWRtaW4="),
        Some("Basic !"),
        Some("Basic /w=="),
    ] {
        let c = check_basic_auth(h, "admin", "admin").err().unwrap();
        assert_eq!(c.status, 401);
        assert_eq!(c.body, "Unauthorized");
        assert_eq!(c.www_authenticate, "Basic realm=\"solana-rpc-cluster\"");
    }
    assert!(check_basic_auth(Some("Basic YTpiOmM="), "a:b", "c").is_err());
}

#[test]
fn whitelist_is_shown_with_defaults() {
    let l = list_ips(&config());
    assert_eq!(l.len(), 1);
    assert_eq!((l[0].rps, l[0].tps, l[0].burst_rps, l[0].burst_tps), (10, 2, 3, 4));
    assert_eq!(l[0].label, "one");
}

#[test]
fn address_is_added_changed_and_removed() {
    let mut gate = Gate::new(config());
    let ip = IpAddr::V4(9);
    assert_eq!(add_ip(&mut gate, ask(None, "", None)), Err(AdminError::BadRequest));
    assert_eq!(add_ip(&mut gate, ask(Some(ip), "nine", Some(2))), Ok(ip));
    assert!(gate.whitelist.is_allowed(&ip));
    assert_eq!(gate.rate_limiter.config.get_ip_rps(&ip), 2);
    assert_eq!(update_ip(&mut gate, Some(ip), ask(None, "", Some(7))), Ok(()));
    assert_eq!(gate.rate_limiter.config.get_ip_rps(&ip), 7);
    assert_eq!(gate.rate_limiter.config.whitelist[1].label, "nine");
    assert_eq!(update_ip(&mut gate, Some(ip), ask(None, "neun", None)), Ok(()));
    assert_eq!(gate.rate_limiter.config.whitelist[1].label, "neun");
    assert_eq!(gate.rate_limiter.config.get_ip_rps(&ip), 7);
    assert_eq!(
        update_ip(&mut gate, Some(IpAddr::V4(8)), ask(None, "", None)),
        Err(AdminError::NotFound)
    );
    assert_eq!(update_ip(&mut gate, None, ask(None, "", None)), Err(AdminError::BadRequest));
    assert_eq!(add_ip(&mut gate, ask(Some(ip), "again", None)), Ok(ip));
    assert_eq!(remove_ip(&mut gate, Some(ip)), Ok(ip));
    assert!(!gate.whitelist.is_allowed(&ip));
    assert_eq!(gate.rate_limiter.config.whitelist.len(), 1);
    assert_eq!(remove_ip(&mut gate, None), Err(AdminError::BadRequest));
    assert_eq!((AdminError::BadRequest.status(), AdminError::NotFound.status()), (400, 404));
}

#[test]
fn changed_limits_take_effect_at_once() {
    let mut gate = Gate::new(config());
    let ip = IpAddr::V4(1);
    for _ in 0..13 {
        assert!(gate.rate_limiter.check(&ip, false).is_ok());
    }
    assert!(gate.rate_limiter.check(&ip, false).is_err());
    update_ip(&mut gate, Some(ip), ask(None, "", Some(0))).unwrap();
    for _ in 0..3 {
        assert!(gate.rate_limiter.check(&ip, false).is_ok());
    }
    assert!(gate.rate_limiter.check(&ip, false).is_err());
}

#[test]
fn keys_are_masked() {
    assert_eq!(mask_key("sk_0123456789abcdef"), "sk_01234...cdef");
    assert_eq!(mask_key("123456789012"), "123456789012");
    assert_eq!(mask_key("1234567890123"), "12345678...0123");
    assert!(can_mask("1234567\u{fc}890123") == false);
    assert!(can_mask("\u{fc}1234567890\u{fc}x"));
    assert!(can_mask("\u{fc}\u{fc}\u{fc}\u{fc}\u{fc}\u{fc}"));
}

#[test]
fn key_is_created_listed_and_revoked() {
    let mut gate = Gate::new(config());
    create_with_key(&mut gate, "sk_fedcba9876543210".to_string(), ask_key(), "now".to_string());
    let shown = list_api_keys(&gate.api_keys.list_keys());
    assert_eq!(shown.len(), 2);
    assert_eq!(shown[1].key_prefix, "sk_fedcb...3210");
    assert_eq!((shown[1].rps, shown[1].created_at.as_str()), (Some(5), "now"));
    assert_eq!(count_active_keys(&gate.rate_limiter.config.api_keys), 2);
    assert_eq!(revoke_api_key(&mut gate, "sk_fedcb...3210"), Ok(()));
    assert!(!gate.key_in_use(Some("sk_fedcba9876543210")));
    assert_eq!(count_active_keys(&gate.rate_limiter.config.api_keys), 1);
    assert_eq!(revoke_api_key(&mut gate, "sk_fedcb"), Err(AdminError::NotFound));
    assert_eq!(revoke_api_key(&mut gate, "sk_0123"), Ok(()));
    assert!(gate.rate_limiter.config.api_keys[0].revoked);
    let key = create_api_key(&mut gate, ask_key(), "later".to_string());
    assert!(gate.key_in_use(Some(key.as_str())));
    assert!(request_fits(Some(1), None, None, None, &gate.rate_limiter.config.rate_limits));
    assert!(!request_fits(
        Some(u32::MAX),
        Some(1),
        None,
        None,
        &gate.rate_limiter.config.rate_limits
    ));
}

#[test]
fn nodes_are_shown_with_the_age_of_their_last_message() {
    let mut n = node();
    assert_eq!(last_msg_age_secs(&n.health, 5000), u64::MAX);
    n.health.last_msg_ms = 1500;
    n.health.status = NodeStatus::Degraded.code();
    n.health.wins = 3;
    let l = list_nodes(&vec![n], 5000);
    assert_eq!(l[0].last_msg_age_secs, 3);
    assert_eq!((l[0].status, l[0].wins, l[0].iris_configured), ("degraded", 3, true));
    assert_eq!((l[0].id.as_str(), l[0].label.as_str(), l[0].region.as_str()), ("fra", "Frankfurt", "eu"));
    let mut n = node();
    n.health.last_msg_ms = 9000;
    assert_eq!(last_msg_age_secs(&n.health, 5000), 0);
}

#[test]
fn health_and_live_messages_sum_up() {
    let mut gate = Gate::new(config());
    gate.stats.record_rpc(IpAddr::V4(1), true, 1);
    let nodes = vec![node()];
    let h = health_check(&gate.rate_limiter.config, &nodes, 60);
    assert_eq!((h.uptime_secs, h.whitelisted_ips, h.api_keys), (60, 1, 1));
    assert_eq!((h.nodes[0].id.as_str(), h.nodes[0].status), ("fra", "healthy"));
    let s = get_stats(&gate.stats, 60);
    assert_eq!((s.global.total_requests, s.per_ip.len()), (1, 1));
    assert_eq!(s.per_ip[0].1.total_tx_sends, 1);
    let m = ws_stats(&gate, &nodes, 61, 2);
    assert_eq!((m.global.uptime_secs, m.ips.len(), m.nodes.len()), (61, 1, 1));
    assert_eq!((m.api_keys_count, m.per_ip.len()), (1, 1));
}

#[test]
fn shadow_counters_tell_updates_apart() {
    let mut c = Counters::new();
    let before = c;
    c.on_update(&update(UpdateOneof::Account), 5);
    c.on_update(&update(UpdateOneof::Account), 6);
    c.on_update(&update(UpdateOneof::Slot { slot: 77, status: 0 }), 7);
    c.on_update(&update(UpdateOneof::BlockMeta { slot: 77 }), 7);
    c.on_update(&update(UpdateOneof::Ping), 7);
    c.on_update(&update(UpdateOneof::Pong { id: 1 }), 7);
    c.on_update(&update(UpdateOneof::Block), 7);
    c.on_error();
    assert_eq!(c.first_account_after_swap_at, Some(5));
    assert_eq!(c.other, 1);
    assert_eq!(
        Counters::print_delta("x", &before, &c),
        "- x: Δaccounts=2 Δslots=1 Δblocks_meta=1 Δpings=1 Δpongs=1 Δerrors=1 last_slot=77"
    );
}

#[test]
fn shadow_filter_grows_to_all_wallets() {
    assert_eq!(GrowPlan::new(99).err().unwrap(), "wallet list too small: 99");
    let mut sizes = Vec::new();
    let mut p = GrowPlan::new(7000).ok().unwrap();
    while let Some(n) = p.next_size() {
        sizes.push(n);
    }
    assert_eq!(sizes, vec![200, 1000, 5000, 7000]);
    let mut p = GrowPlan::new(100000).ok().unwrap();
    let mut last = 0;
    while let Some(n) = p.next_size() {
        last = n;
    }
    assert_eq!(last, 25000);
    let mut p = GrowPlan::new(150).ok().unwrap();
    assert_eq!(p.next_size(), Some(150));
    assert_eq!(p.next_size(), None);
}

#[test]
fn shadow_churn_alternates_until_time_is_up() {
    let mut c = Churn::new();
    assert_eq!(c.next_size(0, 9000), Some(200));
    assert!(c.on_sent(TrySend::Sent));
    assert_eq!(c.next_size(5000, 9000), Some(5000));
    assert_eq!(c.next_size(5000, 300), Some(300));
    assert!(c.on_sent(TrySend::Full));
    assert!(!c.on_sent(TrySend::Closed));
    assert_eq!((c.iterations, c.send_full), (2, 1));
    assert_eq!(c.next_size(60000, 9000), None);
    let wallets = vec!["a".repeat(44), "b".repeat(44)];
    let r = build_request(&wallets);
    assert_eq!(r.accounts.entries[0].0, "shadow_accounts");
    assert_eq!(r.accounts.entries[0].1.account, wallets);
    assert_eq!(request_kb(&wallets), 0);
    assert_eq!(request_kb(&vec!["a".repeat(44); 1000]), 44);
    assert_eq!(r.blocks_meta, vec!["shadow_blocks_meta"]);
    assert_eq!(r.slots.entries[0].0, "shadow_slots");
}

#[test]
fn changes_keep_the_gate_in_step_with_its_configuration() {
    let mut gate = Gate::new(config());
    add_ip(&mut gate, ask(Some(IpAddr::V4(2)), "two", Some(20))).unwrap();
    update_ip(&mut gate, Some(IpAddr::V4(1)), ask(None, "first", Some(7))).unwrap();
    create_with_key(&mut gate, "sk_fedcba9876543210".to_string(), ask_key(), "now".to_string());
    revoke_api_key(&mut gate, "sk_0123").unwrap();
    remove_ip(&mut gate, Some(IpAddr::V4(1))).unwrap();

    let again = Gate::new(gate.rate_limiter.config.clone());
    for n in 0..4 {
        let ip = IpAddr::V4(n);
        assert_eq!(gate.whitelist.is_allowed(&ip), again.whitelist.is_allowed(&ip));
        assert_eq!(gate.whitelist.is_allowed(&ip), n == 2);
    }
    for (key, used) in [("sk_fedcba9876543210", true), ("sk_0123456789abcdef", false)] {
        assert_eq!(gate.key_in_use(Some(key)), used);
        assert_eq!(again.key_in_use(Some(key)), used);
    }
}

#[test]
fn wallets_are_read_from_a_list_of_texts() {
    let names: Vec<String> = (0..100).map(|i| format!("\"w{}\"", i)).collect();
    let body = format!("[{}]", names.join(","));
    let (wallets, plan) = load_wallets(body.as_bytes()).ok().unwrap();
    assert_eq!(wallets.len(), 100);
    assert_eq!((wallets[0].as_str(), wallets[99].as_str()), ("w0", "w99"));
    assert_eq!(plan, GrowPlan { wallets: 100, union_len: 50, at: 0 });
    assert_eq!(load_wallets(b"[\"a\"]").err().unwrap(), "wallet list too small: 1");
    assert!(load_wallets(b"[1]").err().unwrap().contains("expected a string"));
    assert_eq!(start_with(Err("why".to_string())).err().unwrap(), "why");
}

#[test]
fn shadow_run_sends_the_first_wallets() {
    let wallets: Vec<String> = (0..150).map(|i| format!("w{}", i)).collect();
    let quiet = Counters::new();
    let seen = ShadowEvent::Seen { before: quiet, after: quiet };
    let mut run = ShadowRun::new(GrowPlan::new(150).ok().unwrap());
    assert_eq!(run.filter(&wallets).unwrap(), wallets[..50].to_vec());
    run.on_event(seen);
    assert_eq!(run.filter(&wallets).unwrap(), wallets);
    run.on_event(ShadowEvent::Sent(TrySend::Sent));
    assert!(run.filter(&wallets).is_none());
    run.on_event(seen);
    assert_eq!(run.step, ShadowStep::Shrink);
    assert_eq!(run.filter(&wallets).unwrap(), wallets[..50].to_vec());
}

#[test]
fn grown_filter_starts_its_own_clock() {
    let mut run = ShadowRun::new(GrowPlan::new(150).ok().unwrap());
    let mut c = Counters::new();
    assert_eq!(c.swap_latency(3), None);
    c.on_update(&update(UpdateOneof::Account), 10);
    run.begin(&mut c);
    assert_eq!(c.first_account_after_swap_at, Some(10));
    assert_eq!((c.swap_latency(3), c.swap_latency(11)), (Some(7), Some(0)));
    run.on_event(ShadowEvent::Seen { before: c, after: c });
    run.on_event(ShadowEvent::Sent(TrySend::Sent));
    run.begin(&mut c);
    assert_eq!((c.first_account_after_swap_at, c.accounts), (None, 1));
}

#[test]
fn shadow_run_goes_through_its_parts() {
    let quiet = Counters::new();
    let mut failed = Counters::new();
    failed.on_error();
    let seen = ShadowEvent::Seen { before: quiet, after: quiet };
    let broken = ShadowEvent::Seen { before: quiet, after: failed };

    let mut run = ShadowRun::new(GrowPlan::new(150).ok().unwrap());
    assert_eq!((run.step, run.secs()), (ShadowStep::Baseline, 30));
    assert_eq!(run.on_event(seen), ShadowStep::Grow { size: 150 });
    assert_eq!(run.on_event(ShadowEvent::Sent(TrySend::Full)), ShadowStep::Grown { size: 150 });
    assert_eq!(run.secs(), 15);
    assert_eq!(run.on_event(seen), ShadowStep::Shrink);
    assert_eq!(run.on_event(ShadowEvent::Done), ShadowStep::Shrunk);
    assert_eq!(run.on_event(seen), ShadowStep::Churn { size: 150 });
    assert_eq!(run.on_event(ShadowEvent::Sent(TrySend::Sent)), ShadowStep::Pause);
    assert_eq!(run.secs(), 5);
    assert_eq!(
        run.on_event(ShadowEvent::Waited { elapsed_ms: 59999 }),
        ShadowStep::Churn { size: 150 }
    );
    assert_eq!(run.on_event(ShadowEvent::Sent(TrySend::Full)), ShadowStep::Pause);
    assert_eq!(
        run.on_event(ShadowEvent::Waited { elapsed_ms: 60000 }),
        ShadowStep::SecondStream
    );
    assert_eq!(run.churn, Churn { iterations: 2, send_full: 1 });
    assert_eq!(run.on_event(ShadowEvent::Done), ShadowStep::WrapUp);

    let mut run = ShadowRun::new(GrowPlan::new(9000).ok().unwrap());
    assert_eq!(run.on_event(seen), ShadowStep::Grow { size: 200 });
    run.on_event(ShadowEvent::Sent(TrySend::Sent));
    assert_eq!(run.on_event(broken), ShadowStep::Shrink);
    let mut run = ShadowRun::new(GrowPlan::new(9000).ok().unwrap());
    run.on_event(seen);
    assert_eq!(run.on_event(ShadowEvent::Sent(TrySend::Closed)), ShadowStep::Shrink);
    run.on_event(ShadowEvent::Done);
    assert_eq!(run.on_event(seen), ShadowStep::Churn { size: 200 });
    assert_eq!(run.on_event(ShadowEvent::Sent(TrySend::Closed)), ShadowStep::SecondStream);
}
