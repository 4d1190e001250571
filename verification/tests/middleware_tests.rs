use solana_rpc_cluster::config::{
    ApiKeyEntry, Config, CpuConfig, FirewallConfig, GeneralConfig, GrpcConfig, HealthConfig,
    RateLimitConfig, RoutingConfig, WhitelistEntry,
};
use solana_rpc_cluster::middleware::api_keys::{format_api_key, generate_api_key, ApiKeyData, ApiKeyStore};
use solana_rpc_cluster::middleware::firewall::{sync_firewall, FirewallPlan};
use solana_rpc_cluster::middleware::ip_whitelist::IpWhitelist;
use solana_rpc_cluster::middleware::rate_limiter::{verdict, RateLimiterMiddleware};
use solana_rpc_cluster::net::{IpAddr, IpSet};

fn general() -> GeneralConfig {
    GeneralConfig {
        rpc_bind: String::new(),
        ws_bind: String::new(),
        grpc_bind: String::new(),
        arpc_bind: String::new(),
        dashboard_bind: String::new(),
        dashboard_user: String::new(),
        dashboard_pass: String::new(),
        data_dir: String::new(),
        log_level: String::new(),
    }
}

fn config(default_rps: u32, default_tps: u32) -> Config {
    Config {
        general: general(),
        nodes: Vec::new(),
        rate_limits: RateLimitConfig {
            global_rps: 0,
            global_tps: 0,
            default_rps,
            default_tps,
            default_burst_rps: 0,
            default_burst_tps: 0,
        },
        cpu: CpuConfig::default(),
        firewall: FirewallConfig::default(),
        health: HealthConfig::default(),
        grpc: GrpcConfig::default(),
        routing: RoutingConfig::default(),
        whitelist: Vec::new(),
        api_keys: Vec::new(),
        upstream: None,
    }
}

fn key_entry(key: &str, rps: Option<u32>, revoked: bool) -> ApiKeyEntry {
    ApiKeyEntry {
        key: key.to_string(),
        label: "l".to_string(),
        rps,
        tps: None,
        burst_rps: None,
        burst_tps: None,
        created_at: "t".to_string(),
        revoked,
    }
}

fn ip_entry(ip: IpAddr, rps: u32) -> WhitelistEntry {
    WhitelistEntry {
        ip,
        label: String::new(),
        rps: Some(rps),
        tps: None,
        burst_rps: None,
        burst_tps: None,
    }
}

#[test]
fn keys_come_from_entries_that_are_not_revoked() {
    let s = ApiKeyStore::new(&vec![
        key_entry("a", Some(1), false),
        key_entry("b", None, true),
        key_entry("a", Some(2), false),
    ]);
    assert_eq!(s.validate("a").unwrap().rps, Some(2));
    assert!(s.validate("b").is_none());
    assert!(s.validate("c").is_none());
    let l = s.list_keys();
    assert_eq!(l.len(), 1);
    assert_eq!(l[0].0, "a");
    assert_eq!(l[0].1.created_at, "t");
}

#[test]
fn revoked_key_is_gone_and_reload_starts_over() {
    let mut s = ApiKeyStore::new(&Vec::new());
    let data = ApiKeyData {
        label: "x".to_string(),
        rps: None,
        tps: Some(4),
        burst_rps: None,
        burst_tps: None,
        created_at: String::new(),
    };
    s.add_key("k".to_string(), data.clone());
    s.add_key("j".to_string(), data);
    assert_eq!(s.validate("k").unwrap().tps, Some(4));
    assert!(s.revoke_key("k"));
    assert!(!s.revoke_key("k"));
    assert!(s.validate("k").is_none());
    assert!(s.validate("j").is_some());
    s.reload(&vec![key_entry("z", None, false)]);
    assert!(s.validate("j").is_none());
    assert!(s.validate("z").is_some());
}

#[test]
fn api_keys_are_prefixed_hex() {
    assert_eq!(format_api_key(&[0, 15, 16, 255]), "sk_000f10ff");
    assert_ne!(format_api_key(&[1, 16]), format_api_key(&[17, 0]));
    let a = generate_api_key();
    let b = generate_api_key();
    assert_eq!(a.len(), 35);
    assert!(a.starts_with("sk_"));
    assert!(a[3..].bytes().all(|c| c.is_ascii_digit() || (b'a'..=b'f').contains(&c)));
    assert_ne!(a, b);
}

#[test]
fn whitelist_is_added_to_taken_from_and_replaced() {
    let mut w = IpWhitelist::new(IpSet::new());
    assert!(!w.is_allowed(&IpAddr::V4(1)));
    w.add_ip(IpAddr::V4(1));
    w.add_ip(IpAddr::V4(1));
    w.add_ip(IpAddr::V6(2));
    assert!(w.is_allowed(&IpAddr::V4(1)));
    assert_eq!(w.get_all().to_vec().len(), 2);
    w.remove_ip(&IpAddr::V4(1));
    assert!(!w.is_allowed(&IpAddr::V4(1)));
    assert!(w.is_allowed(&IpAddr::V6(2)));
    w.update(IpSet::new());
    assert!(!w.is_allowed(&IpAddr::V6(2)));
}

#[test]
fn verdict_asks_transactions_only_after_requests() {
    assert_eq!(verdict(true, None), Ok(()));
    assert_eq!(verdict(true, Some(true)), Ok(()));
    assert_eq!(verdict(true, Some(false)), Err(true));
    assert_eq!(verdict(false, None), Err(false));
    assert_eq!(verdict(false, Some(false)), Err(false));
}

#[test]
fn burst_comes_on_top_of_the_rate() {
    let mut c = config(1, 1);
    c.rate_limits.default_burst_rps = 2;
    let mut m = RateLimiterMiddleware::new(c);
    let ip = IpAddr::V4(9);
    assert_eq!(m.check(&ip, false), Ok(()));
    assert_eq!(m.check_rps(&ip), Ok(()));
    assert_eq!(m.check(&ip, false), Ok(()));
    assert_eq!(m.check(&ip, false), Err(false));
    assert_eq!(m.check_rps(&ip), Err(()));
    assert_eq!(m.check(&IpAddr::V4(10), false), Ok(()));
}

#[test]
fn burst_of_an_entry_counts_and_transactions_are_asked_only_of_sends() {
    let mut c = config(1, 1);
    let mut entry = ip_entry(IpAddr::V4(9), 2);
    entry.burst_rps = Some(4);
    entry.tps = Some(1);
    entry.burst_tps = Some(1);
    c.whitelist = vec![entry];
    let mut m = RateLimiterMiddleware::new(c);
    let ip = IpAddr::V4(9);
    assert_eq!(m.check(&ip, false), Ok(()));
    assert_eq!(m.check(&ip, true), Ok(()));
    assert_eq!(m.check(&IpAddr::V4(10), true), Ok(()));
    assert_eq!(m.check(&ip, true), Ok(()));
    assert_eq!(m.check(&ip, true), Err(true));
    assert_eq!(m.check(&ip, false), Ok(()));
    assert_eq!(m.check(&ip, false), Ok(()));
    assert_eq!(m.check(&ip, false), Err(false));
    assert_eq!(m.check(&ip, true), Err(false));
}

#[test]
fn client_keeps_its_limiters_while_others_ask() {
    let mut m = RateLimiterMiddleware::new(config(1, 1));
    let ip = IpAddr::V4(9);
    assert_eq!(m.check(&ip, false), Ok(()));
    for n in 10..20 {
        assert_eq!(m.check(&IpAddr::V4(n), false), Ok(()));
    }
    assert_eq!(m.check_rps_by_key("k"), Ok(()));
    assert_eq!(m.check(&ip, false), Err(false));
    assert_eq!(m.check_by_key("k", true), Err(false));
}

#[test]
fn transactions_have_a_limit_of_their_own() {
    let mut m = RateLimiterMiddleware::new(config(100, 1));
    let ip = IpAddr::V4(9);
    assert_eq!(m.check(&ip, true), Ok(()));
    assert_eq!(m.check(&ip, true), Err(true));
    assert_eq!(m.check(&ip, false), Ok(()));
}

#[test]
fn zero_rate_still_lets_one_through() {
    let mut m = RateLimiterMiddleware::new(config(0, 0));
    assert_eq!(m.check(&IpAddr::V4(1), true), Ok(()));
    assert_eq!(m.check(&IpAddr::V4(1), false), Err(false));
}

#[test]
fn entries_and_keys_have_their_own_limits() {
    let mut c = config(1, 1);
    c.whitelist = vec![ip_entry(IpAddr::V4(1), 3)];
    c.api_keys = vec![key_entry("k", Some(2), false)];
    let mut m = RateLimiterMiddleware::new(c);
    for _ in 0..3 {
        assert_eq!(m.check(&IpAddr::V4(1), false), Ok(()));
    }
    assert_eq!(m.check(&IpAddr::V4(1), false), Err(false));
    assert_eq!(m.check_by_key("k", false), Ok(()));
    assert_eq!(m.check_rps_by_key("k"), Ok(()));
    assert_eq!(m.check_by_key("k", false), Err(false));
    assert_eq!(m.check_by_key("unknown", false), Ok(()));
    assert_eq!(m.check_rps_by_key("unknown"), Err(()));
}

#[test]
fn reload_starts_the_limiters_over() {
    let mut m = RateLimiterMiddleware::new(config(1, 1));
    let ip = IpAddr::V4(1);
    assert_eq!(m.check(&ip, false), Ok(()));
    assert_eq!(m.check(&ip, false), Err(false));
    m.rebuild();
    assert_eq!(m.check(&ip, false), Ok(()));
    m.reload(config(2, 1));
    assert_eq!(m.check(&ip, false), Ok(()));
    assert_eq!(m.check(&ip, false), Ok(()));
    assert_eq!(m.check(&ip, false), Err(false));
}

#[test]
fn firewall_that_is_off_is_left_alone() {
    let c = FirewallConfig::default();
    assert!(matches!(sync_firewall(&Vec::new(), &c, &vec![1]), Ok(FirewallPlan::Nothing)));
}

#[test]
fn nft_rules_list_every_address() {
    let c = FirewallConfig {
        enabled: true,
        backend: "nftables".to_string(),
        chain_name: "rpc".to_string(),
    };
    let ips = vec!["10.0.0.1".to_string(), "::1".to_string()];
    match sync_firewall(&ips, &c, &vec![8899, 8900]) {
        Ok(FirewallPlan::Nft { rules }) => assert_eq!(
            rules,
            "flush chain inet filter rpc\n\
             add rule inet filter rpc ip saddr 10.0.0.1 tcp dport { 8899, 8900 } accept\n\
             add rule inet filter rpc ip saddr ::1 tcp dport { 8899, 8900 } accept\n\
             add rule inet filter rpc tcp dport { 8899, 8900 } drop\n"
        ),
        _ => panic!("expected rules"),
    }
}

#[test]
fn iptables_commands_list_every_address() {
    let c = FirewallConfig {
        enabled: true,
        backend: "iptables".to_string(),
        chain_name: "rpc".to_string(),
    };
    match sync_firewall(&vec!["10.0.0.1".to_string()], &c, &vec![8899, 8900]) {
        Ok(FirewallPlan::Iptables { commands }) => {
            let lines: Vec<String> = commands.iter().map(|c| c.join(" ")).collect();
            assert_eq!(
                lines,
                vec![
                    "-F rpc",
                    "-N rpc",
                    "-A rpc -s 10.0.0.1 -p tcp -m multiport --dports 8899,8900 -j ACCEPT",
                    "-A rpc -p tcp -m multiport --dports 8899,8900 -j DROP",
                ]
            );
        }
        _ => panic!("expected commands"),
    }
}

#[test]
fn unknown_firewall_backend_is_refused() {
    let c = FirewallConfig { enabled: true, backend: "pf".to_string(), chain_name: String::new() };
    assert_eq!(
        sync_firewall(&Vec::new(), &c, &Vec::new()).err().unwrap(),
        "Unknown firewall backend: pf"
    );
}
