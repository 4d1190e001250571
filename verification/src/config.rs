//! The configuration of the cluster: its types, their defaults, and what follows from them.

use crate::net::{IpAddr, IpSet};
use crate::text;
use vstd::prelude::*;

verus! {

/// Everything that can be configured.
#[derive(Debug, Clone)]
pub struct Config {
    pub general: GeneralConfig,
    pub nodes: Vec<NodeConfig>,
    pub rate_limits: RateLimitConfig,
    pub cpu: CpuConfig,
    pub firewall: FirewallConfig,
    pub health: HealthConfig,
    pub grpc: GrpcConfig,
    pub routing: RoutingConfig,
    pub whitelist: Vec<WhitelistEntry>,
    pub api_keys: Vec<ApiKeyEntry>,
    /// The older form with a single upstream.
    pub upstream: Option<LegacyUpstreamConfig>,
}

/// Listening addresses, the dashboard's credentials, and where data is kept.
#[derive(Debug, Clone)]
pub struct GeneralConfig {
    pub rpc_bind: String,
    pub ws_bind: String,
    pub grpc_bind: String,
    pub arpc_bind: String,
    pub dashboard_bind: String,
    pub dashboard_user: String,
    pub dashboard_pass: String,
    pub data_dir: String,
    pub log_level: String,
}

/// One upstream node.
#[derive(Debug)]
pub struct NodeConfig {
    pub id: String,
    pub label: String,
    pub region: String,
    /// The lower, the sooner the node is chosen.
    pub priority: u32,
    pub rpc_url: String,
    pub ws_url: String,
    pub grpc_url: String,
    pub arpc_url: String,
    pub grpc_x_token: String,
    pub iris_url: Option<String>,
    pub rpc_pool_max_idle: usize,
    pub rpc_pool_idle_timeout_secs: u64,
}

/// How often nodes are checked, and after how many checks their status changes.
#[derive(Debug, Clone, Copy, PartialEq, Eq, Structural)]
pub struct HealthConfig {
    pub check_interval_secs: u64,
    pub unhealthy_threshold: u32,
    pub healthy_threshold: u32,
    pub timeout_ms: u64,
}

/// Which nodes get transactions and which serve gRPC.
#[derive(Debug, Clone)]
pub struct RoutingConfig {
    /// `all`, or node ids with commas between them.
    pub send_tx_targets: String,
    /// The regions whose nodes serve gRPC; all do where none is given.
    pub grpc_regions: Vec<String>,
}

/// The gRPC side: windows, capacities, keepalive and deduplication.
#[derive(Debug, Clone, Copy, PartialEq, Eq, Structural)]
pub struct GrpcConfig {
    /// HTTP/2 initial connection window size in bytes
    pub connection_window_bytes: u32,
    /// HTTP/2 initial stream window size in bytes
    pub stream_window_bytes: u32,
    /// Enable HTTP/2 adaptive flow control
    pub adaptive_window: bool,
    /// Max concurrent streams per connection
    pub concurrency_limit: usize,
    /// Broadcast channel capacity for mux
    pub broadcast_capacity: usize,
    /// Per-client channel capacity
    pub client_channel_capacity: usize,
    /// Max lag events before disconnecting a slow consumer
    pub max_lag_events: u64,
    /// HTTP/2 keepalive interval in seconds (server-side)
    pub keepalive_interval_secs: u64,
    /// HTTP/2 keepalive timeout in seconds (server-side)
    pub keepalive_timeout_secs: u64,
    /// Stream from all gRPC-eligible regions in parallel with dedup
    pub multi_region_enabled: bool,
    /// How long to remember messages for dedup (seconds)
    pub dedup_window_secs: u64,
    /// How often to evict expired dedup entries (seconds)
    pub dedup_eviction_interval_secs: u64,
}

/// Requests and transactions per second, globally and for a client without limits of its own.
#[derive(Debug, Clone, Copy, PartialEq, Eq, Structural)]
pub struct RateLimitConfig {
    pub global_rps: u32,
    pub global_tps: u32,
    pub default_rps: u32,
    pub default_tps: u32,
    pub default_burst_rps: u32,
    pub default_burst_tps: u32,
}

/// Worker threads and the cores they are pinned to.
#[derive(Debug, Clone)]
pub struct CpuConfig {
    pub cores: Vec<usize>,
    pub worker_threads: Option<usize>,
}

/// Whether the system firewall follows the whitelist, and how.
#[derive(Debug, Clone)]
pub struct FirewallConfig {
    pub enabled: bool,
    pub backend: String,
    pub chain_name: String,
}

/// A client address that may use the proxy.
#[derive(Debug, Clone)]
pub struct WhitelistEntry {
    pub ip: IpAddr,
    pub label: String,
    pub rps: Option<u32>,
    pub tps: Option<u32>,
    pub burst_rps: Option<u32>,
    pub burst_tps: Option<u32>,
}

/// A key that a client may use in place of a whitelisted address.
#[derive(Debug, Clone)]
pub struct ApiKeyEntry {
    pub key: String,
    pub label: String,
    pub rps: Option<u32>,
    pub tps: Option<u32>,
    pub burst_rps: Option<u32>,
    pub burst_tps: Option<u32>,
    pub created_at: String,
    pub revoked: bool,
}

/// The single upstream of the older form; it stands for one node.
#[derive(Debug, Clone)]
pub struct LegacyUpstreamConfig {
    pub rpc_url: String,
    pub ws_url: String,
    pub grpc_url: String,
    pub arpc_url: String,
    pub grpc_x_token: String,
    pub rpc_pool_max_idle: usize,
    pub rpc_pool_idle_timeout_secs: u64,
}

/// Why a configuration cannot be used.
#[derive(Debug, Clone, Copy, PartialEq, Eq, Structural)]
pub enum ConfigError {
    NoNodes,
}

/// What the whitelist hands out in sum, and whether that is more than the global limits.
#[derive(Debug, Clone, Copy, PartialEq, Eq, Structural)]
pub struct Allocation {
    pub total_rps: u32,
    pub total_tps: u32,
    pub rps_exceeds_global: bool,
    pub tps_exceeds_global: bool,
}

impl Clone for NodeConfig {
    fn clone(&self) -> (r: Self)
        ensures
            r == *self,
    {
        NodeConfig {
            id: self.id.clone(),
            label: self.label.clone(),
            region: self.region.clone(),
            priority: self.priority,
            rpc_url: self.rpc_url.clone(),
            ws_url: self.ws_url.clone(),
            grpc_url: self.grpc_url.clone(),
            arpc_url: self.arpc_url.clone(),
            grpc_x_token: self.grpc_x_token.clone(),
            iris_url: match &self.iris_url {
                Some(url) => Some(url.clone()),
                None => None,
            },
            rpc_pool_max_idle: self.rpc_pool_max_idle,
            rpc_pool_idle_timeout_secs: self.rpc_pool_idle_timeout_secs,
        }
    }
}

/// The ids of the nodes, in order.
pub open spec fn node_ids(nodes: Seq<NodeConfig>) -> Seq<Seq<char>> {
    nodes.map_values(|n: NodeConfig| n.id@)
}

/// The node is in one of the regions.
pub open spec fn in_regions(regions: Seq<String>) -> spec_fn(NodeConfig) -> bool {
    |n: NodeConfig| text::views(regions).contains(n.region@)
}

/// The ids of the nodes in the regions, in order; of all nodes where no region is given.
pub open spec fn ids_in_regions(nodes: Seq<NodeConfig>, regions: Seq<String>) -> Seq<Seq<char>> {
    if regions.len() == 0 {
        node_ids(nodes)
    } else {
        node_ids(nodes.filter(in_regions(regions)))
    }
}

/// The first whitelist entry for an address.
pub open spec fn entry_for(entries: Seq<WhitelistEntry>, ip: IpAddr) -> Option<WhitelistEntry>
    decreases entries.len(),
{
    if entries.len() == 0 {
        None
    } else if entries[0].ip == ip {
        Some(entries[0])
    } else {
        entry_for(entries.drop_first(), ip)
    }
}

/// A limit of an entry, or the default where there is no entry or it leaves the limit open.
pub open spec fn limit_or(own: Option<u32>, default: u32) -> u32 {
    match own {
        Some(n) => n,
        None => default,
    }
}

/// The requests per second that the entries hand out in sum.
pub open spec fn sum_rps(entries: Seq<WhitelistEntry>, default: u32) -> nat
    decreases entries.len(),
{
    if entries.len() == 0 {
        0
    } else {
        sum_rps(entries.drop_last(), default) + limit_or(entries.last().rps, default) as nat
    }
}

/// The transactions per second that the entries hand out in sum.
pub open spec fn sum_tps(entries: Seq<WhitelistEntry>, default: u32) -> nat
    decreases entries.len(),
{
    if entries.len() == 0 {
        0
    } else {
        sum_tps(entries.drop_last(), default) + limit_or(entries.last().tps, default) as nat
    }
}

/// The ids that a list of targets names: every node for `all`, else the pieces between the commas
/// without surrounding white space, the empty ones left out.
pub open spec fn target_ids(targets: Seq<char>, nodes: Seq<NodeConfig>) -> Seq<Seq<char>> {
    if targets == "all"@ {
        node_ids(nodes)
    } else {
        text::split(targets, ',').map_values(|s: Seq<char>| text::trimmed(s)).filter(
            |s: Seq<char>| s.len() > 0,
        )
    }
}

/// The node that the older form with one upstream stands for.
pub open spec fn is_legacy_node(n: NodeConfig, u: LegacyUpstreamConfig) -> bool {
    &&& n.id@ == "primary"@
    &&& n.label@ == "Primary"@
    &&& n.region@ == "default"@
    &&& n.priority == 1
    &&& n.rpc_url == u.rpc_url
    &&& n.ws_url == u.ws_url
    &&& n.grpc_url == u.grpc_url
    &&& n.arpc_url == u.arpc_url
    &&& n.grpc_x_token == u.grpc_x_token
    &&& n.iris_url is None
    &&& n.rpc_pool_max_idle == u.rpc_pool_max_idle
    &&& n.rpc_pool_idle_timeout_secs == u.rpc_pool_idle_timeout_secs
}

/// An entry at the end counts only where no earlier one is for the address.
pub proof fn lemma_entry_for_push(entries: Seq<WhitelistEntry>, ip: IpAddr)
    requires
        entries.len() > 0,
    ensures
        entry_for(entries, ip) == match entry_for(entries.drop_last(), ip) {
            Some(w) => Some(w),
            None => if entries.last().ip == ip {
                Some(entries.last())
            } else {
                None
            },
        },
    decreases entries.len(),
{
    let rest = entries.drop_last();
    reveal_with_fuel(entry_for, 2);
    if entries.len() > 1 {
        assert(rest[0] == entries[0]);
        assert(entries.drop_first().last() == entries.last());
        assert(entries.drop_first().drop_last() =~= rest.drop_first());
        lemma_entry_for_push(entries.drop_first(), ip);
    } else {
        assert(entries.drop_first() =~= Seq::<WhitelistEntry>::empty());
    }
}

/// The entry for an address is one of the entries.
proof fn lemma_entry_for_is_entry(entries: Seq<WhitelistEntry>, ip: IpAddr)
    ensures
        match entry_for(entries, ip) {
            Some(w) => exists|i: int| 0 <= i < entries.len() && #[trigger] entries[i] == w,
            None => true,
        },
    decreases entries.len(),
{
    if entries.len() > 0 && entries[0].ip != ip {
        let rest = entries.drop_first();
        lemma_entry_for_is_entry(rest, ip);
        match entry_for(rest, ip) {
            Some(w) => {
                let i = choose|i: int| 0 <= i < rest.len() && #[trigger] rest[i] == w;
                assert(entries[i + 1] == w);
            },
            None => {},
        }
    }
}

/// A rate and the burst on top of it add up within the type of the limits.
pub open spec fn adds_up(
    rate: Option<u32>,
    burst: Option<u32>,
    default_rate: u32,
    default_burst: u32,
) -> bool {
    limit_or(rate, default_rate) + limit_or(burst, default_burst) <= u32::MAX
}

/// Whether a rate and the burst on top of it add up.
pub fn sum_fits(
    rate: Option<u32>,
    burst: Option<u32>,
    default_rate: u32,
    default_burst: u32,
) -> (r: bool)
    ensures
        r == adds_up(rate, burst, default_rate, default_burst),
{
    rate.unwrap_or(default_rate).checked_add(burst.unwrap_or(default_burst)).is_some()
}

proof fn lemma_sums_grow(entries: Seq<WhitelistEntry>, i: int, rps: u32, tps: u32)
    requires
        0 <= i <= entries.len(),
    ensures
        sum_rps(entries.take(i), rps) <= sum_rps(entries, rps),
        sum_tps(entries.take(i), tps) <= sum_tps(entries, tps),
    decreases entries.len() - i,
{
    if i == entries.len() {
        assert(entries.take(i) =~= entries);
    } else {
        lemma_sums_grow(entries, i + 1, rps, tps);
        assert(entries.take(i + 1).drop_last() =~= entries.take(i));
    }
}

impl ConfigError {
    /// What the error says.
    pub open spec fn text(self) -> Seq<char> {
        "At least one [[nodes]] entry is required"@
    }

    /// The error as a message.
    pub fn message(&self) -> (r: String)
        ensures
            r@ == self.text(),
    {
        "At least one [[nodes]] entry is required".to_string()
    }
}

impl Config {
    /// What the whitelist hands out in sum fits the type of the limits.
    pub open spec fn totals_in_range(self) -> bool {
        &&& sum_rps(self.whitelist@, self.rate_limits.default_rps) <= u32::MAX
        &&& sum_tps(self.whitelist@, self.rate_limits.default_tps) <= u32::MAX
    }

    /// Every rate adds up with the burst on top of it: the default ones, those of the whitelist,
    /// and those of the keys that are not revoked.
    pub open spec fn limits_in_range(self) -> bool {
        let d = self.rate_limits;
        &&& d.default_rps + d.default_burst_rps <= u32::MAX
        &&& d.default_tps + d.default_burst_tps <= u32::MAX
        &&& forall|i: int|
            0 <= i < self.whitelist@.len() ==> {
                let w = #[trigger] self.whitelist@[i];
                &&& adds_up(w.rps, w.burst_rps, d.default_rps, d.default_burst_rps)
                &&& adds_up(w.tps, w.burst_tps, d.default_tps, d.default_burst_tps)
            }
        &&& forall|i: int|
            0 <= i < self.api_keys@.len() && !(#[trigger] self.api_keys@[i]).revoked ==> {
                let k = self.api_keys@[i];
                &&& adds_up(k.rps, k.burst_rps, d.default_rps, d.default_burst_rps)
                &&& adds_up(k.tps, k.burst_tps, d.default_tps, d.default_burst_tps)
            }
    }

    /// What the configuration gives an address adds up.
    pub proof fn lemma_ip_limits_in_range(self, ip: IpAddr)
        requires
            self.limits_in_range(),
        ensures
            self.ip_rps(ip) + self.ip_burst_rps(ip) <= u32::MAX,
            self.ip_tps(ip) + self.ip_burst_tps(ip) <= u32::MAX,
    {
        lemma_entry_for_is_entry(self.whitelist@, ip);
    }

    /// Whether every rate adds up with the burst on top of it.
    pub fn limits_fit(&self) -> (r: bool)
        ensures
            r == self.limits_in_range(),
    {
        let d = self.rate_limits;
        if !sum_fits(None, None, d.default_rps, d.default_burst_rps) || !sum_fits(
            None,
            None,
            d.default_tps,
            d.default_burst_tps,
        ) {
            return false;
        }
        let mut i: usize = 0;
        while i < self.whitelist.len()
            invariant
                i <= self.whitelist@.len(),
                d == self.rate_limits,
                forall|j: int|
                    0 <= j < i ==> {
                        let w = #[trigger] self.whitelist@[j];
                        &&& adds_up(w.rps, w.burst_rps, d.default_rps, d.default_burst_rps)
                        &&& adds_up(w.tps, w.burst_tps, d.default_tps, d.default_burst_tps)
                    },
            decreases self.whitelist@.len() - i,
        {
            let w = &self.whitelist[i];
            if !sum_fits(w.rps, w.burst_rps, d.default_rps, d.default_burst_rps) || !sum_fits(
                w.tps,
                w.burst_tps,
                d.default_tps,
                d.default_burst_tps,
            ) {
                return false;
            }
            i = i + 1;
        }
        let mut k: usize = 0;
        while k < self.api_keys.len()
            invariant
                k <= self.api_keys@.len(),
                d == self.rate_limits,
                forall|j: int|
                    0 <= j < k && !(#[trigger] self.api_keys@[j]).revoked ==> {
                        let e = self.api_keys@[j];
                        &&& adds_up(e.rps, e.burst_rps, d.default_rps, d.default_burst_rps)
                        &&& adds_up(e.tps, e.burst_tps, d.default_tps, d.default_burst_tps)
                    },
            decreases self.api_keys@.len() - k,
        {
            let e = &self.api_keys[k];
            if !e.revoked && (!sum_fits(e.rps, e.burst_rps, d.default_rps, d.default_burst_rps)
                || !sum_fits(e.tps, e.burst_tps, d.default_tps, d.default_burst_tps)) {
                return false;
            }
            k = k + 1;
        }
        true
    }

    /// The sums over the whitelist, and how they compare with the global limits.
    pub open spec fn is_allocation(self, a: Allocation) -> bool {
        &&& a.total_rps == sum_rps(self.whitelist@, self.rate_limits.default_rps)
        &&& a.total_tps == sum_tps(self.whitelist@, self.rate_limits.default_tps)
        &&& a.rps_exceeds_global == (a.total_rps > self.rate_limits.global_rps)
        &&& a.tps_exceeds_global == (a.total_tps > self.rate_limits.global_tps)
    }

    /// `self` and `other` differ at most in their nodes and in the older upstream form.
    pub open spec fn same_apart_from_nodes(self, other: Config) -> bool {
        &&& self.general == other.general
        &&& self.rate_limits == other.rate_limits
        &&& self.cpu == other.cpu
        &&& self.firewall == other.firewall
        &&& self.health == other.health
        &&& self.grpc == other.grpc
        &&& self.routing == other.routing
        &&& self.whitelist == other.whitelist
        &&& self.api_keys == other.api_keys
    }

    /// `c` is what a configuration comes to when it is made ready for use, and `a` what its
    /// whitelist hands out.
    pub open spec fn loads_as(self, c: Config, a: Allocation) -> bool {
        &&& c.upstream is None
        &&& c.same_apart_from_nodes(self)
        &&& c.is_allocation(a)
        &&& if self.nodes@.len() > 0 {
            c.nodes == self.nodes
        } else {
            &&& self.upstream is Some
            &&& c.nodes@.len() == 1
            &&& is_legacy_node(c.nodes@[0], self.upstream->0)
        }
    }

    /// What comes of making a configuration ready for use.
    pub open spec fn is_loaded(self, r: Result<(Config, Allocation), ConfigError>) -> bool {
        match r {
            Ok((c, a)) => self.loads_as(c, a),
            Err(e) => e is NoNodes && self.nodes@.len() == 0 && self.upstream is None,
        }
    }

    /// What comes of adding up what the whitelist hands out.
    pub open spec fn is_validated(self, r: Result<Allocation, ConfigError>) -> bool {
        match r {
            Ok(a) => self.nodes@.len() > 0 && self.is_allocation(a),
            Err(e) => e is NoNodes && self.nodes@.len() == 0,
        }
    }

    /// Makes a configuration ready for use: where it has no nodes, the older upstream form becomes
    /// the only one; that form is then dropped. It is refused where no node results.
    pub fn load(parsed: Config) -> (r: Result<(Config, Allocation), ConfigError>)
        requires
            parsed.nodes@.len() > 0 || parsed.upstream is Some ==> parsed.totals_in_range(),
        ensures
            parsed.is_loaded(r),
    {
        let mut config = parsed;
        if config.nodes.len() == 0 {
            if let Some(upstream) = config.upstream.take() {
                config.nodes.push(
                    NodeConfig {
                        id: "primary".to_string(),
                        label: "Primary".to_string(),
                        region: "default".to_string(),
                        priority: 1,
                        rpc_url: upstream.rpc_url,
                        ws_url: upstream.ws_url,
                        grpc_url: upstream.grpc_url,
                        arpc_url: upstream.arpc_url,
                        grpc_x_token: upstream.grpc_x_token,
                        iris_url: None,
                        rpc_pool_max_idle: upstream.rpc_pool_max_idle,
                        rpc_pool_idle_timeout_secs: upstream.rpc_pool_idle_timeout_secs,
                    },
                );
            }
        }
        config.upstream = None;
        match config.validate() {
            Ok(a) => Ok((config, a)),
            Err(e) => Err(e),
        }
    }

    /// Adds up what the whitelist hands out; fails where there are no nodes.
    pub fn validate(&self) -> (r: Result<Allocation, ConfigError>)
        requires
            self.nodes@.len() > 0 ==> self.totals_in_range(),
        ensures
            self.is_validated(r),
    {
        if self.nodes.len() == 0 {
            return Err(ConfigError::NoNodes);
        }
        let rps: u32 = self.rate_limits.default_rps;
        let tps: u32 = self.rate_limits.default_tps;
        let mut total_rps: u32 = 0;
        let mut total_tps: u32 = 0;
        let mut i: usize = 0;
        while i < self.whitelist.len()
            invariant
                i <= self.whitelist@.len(),
                rps == self.rate_limits.default_rps,
                tps == self.rate_limits.default_tps,
                self.totals_in_range(),
                total_rps == sum_rps(self.whitelist@.take(i as int), rps),
                total_tps == sum_tps(self.whitelist@.take(i as int), tps),
            decreases self.whitelist@.len() - i,
        {
            proof {
                lemma_sums_grow(self.whitelist@, i + 1, rps, tps);
                assert(self.whitelist@.take(i + 1).drop_last() =~= self.whitelist@.take(i as int));
            }
            total_rps = total_rps + self.whitelist[i].rps.unwrap_or(rps);
            total_tps = total_tps + self.whitelist[i].tps.unwrap_or(tps);
            i = i + 1;
        }
        assert(self.whitelist@.take(i as int) =~= self.whitelist@);
        Ok(
            Allocation {
                total_rps,
                total_tps,
                rps_exceeds_global: total_rps > self.rate_limits.global_rps,
                tps_exceeds_global: total_tps > self.rate_limits.global_tps,
            },
        )
    }

    /// Whether what the whitelist hands out in sum fits the type of the limits.
    pub fn totals_fit(&self) -> (r: bool)
        ensures
            r == self.totals_in_range(),
    {
        let rps: u32 = self.rate_limits.default_rps;
        let tps: u32 = self.rate_limits.default_tps;
        let mut total_rps: u32 = 0;
        let mut total_tps: u32 = 0;
        let mut i: usize = 0;
        while i < self.whitelist.len()
            invariant
                i <= self.whitelist@.len(),
                rps == self.rate_limits.default_rps,
                tps == self.rate_limits.default_tps,
                total_rps == sum_rps(self.whitelist@.take(i as int), rps),
                total_tps == sum_tps(self.whitelist@.take(i as int), tps),
            decreases self.whitelist@.len() - i,
        {
            proof {
                lemma_sums_grow(self.whitelist@, i + 1, rps, tps);
                assert(self.whitelist@.take(i + 1).drop_last() =~= self.whitelist@.take(i as int));
            }
            match (
                total_rps.checked_add(self.whitelist[i].rps.unwrap_or(rps)),
                total_tps.checked_add(self.whitelist[i].tps.unwrap_or(tps)),
            ) {
                (Some(r), Some(t)) => {
                    total_rps = r;
                    total_tps = t;
                },
                _ => {
                    return false;
                },
            }
            i = i + 1;
        }
        assert(self.whitelist@.take(i as int) =~= self.whitelist@);
        true
    }

    /// The addresses of the whitelist.
    pub fn whitelist_set(&self) -> (r: IpSet)
        ensures
            r@ == self.whitelist@.map_values(|w: WhitelistEntry| w.ip).to_set(),
            forall|ip: IpAddr| #[trigger]
                r@.contains(ip) <==> exists|i: int|
                    0 <= i < self.whitelist@.len() && (#[trigger] self.whitelist@[i]).ip == ip,
    {
        let ghost ips = self.whitelist@.map_values(|w: WhitelistEntry| w.ip);
        let mut out = IpSet::new();
        let mut i: usize = 0;
        assert(ips.take(0).to_set() =~= Set::<IpAddr>::empty());
        while i < self.whitelist.len()
            invariant
                i <= self.whitelist@.len(),
                ips == self.whitelist@.map_values(|w: WhitelistEntry| w.ip),
                out@ == ips.take(i as int).to_set(),
            decreases self.whitelist@.len() - i,
        {
            out.insert(self.whitelist[i].ip);
            proof {
                let before = ips.take(i as int);
                let after = ips.take(i + 1);
                assert(after =~= before.push(ips[i as int]));
                assert forall|x: IpAddr| after.contains(x) == (before.contains(x) || x
                    == ips[i as int]) by {
                    if before.contains(x) {
                        assert(after[before.index_of(x)] == x);
                    }
                    assert(after[i as int] == ips[i as int]);
                }
                assert(after.to_set() =~= before.to_set().insert(ips[i as int]));
            }
            i = i + 1;
        }
        assert(ips.take(i as int) =~= ips);
        assert forall|ip: IpAddr| #[trigger] out@.contains(ip) <==> exists|i: int|
            0 <= i < self.whitelist@.len() && (#[trigger] self.whitelist@[i]).ip == ip by {
            if ips.contains(ip) {
                assert(self.whitelist@[ips.index_of(ip)].ip == ip);
            }
            if exists|i: int|
                0 <= i < self.whitelist@.len() && (#[trigger] self.whitelist@[i]).ip == ip {
                let i = choose|i: int|
                    0 <= i < self.whitelist@.len() && (#[trigger] self.whitelist@[i]).ip == ip;
                assert(ips[i] == ip);
            }
        }
        out
    }

    /// The first whitelist entry for an address.
    pub fn entry(&self, ip: &IpAddr) -> (r: Option<&WhitelistEntry>)
        ensures
            match r {
                Some(w) => entry_for(self.whitelist@, *ip) == Some(*w),
                None => entry_for(self.whitelist@, *ip) is None,
            },
    {
        let mut i: usize = 0;
        assert(self.whitelist@.skip(0) =~= self.whitelist@);
        while i < self.whitelist.len()
            invariant
                i <= self.whitelist@.len(),
                entry_for(self.whitelist@, *ip) == entry_for(self.whitelist@.skip(i as int), *ip),
            decreases self.whitelist@.len() - i,
        {
            if self.whitelist[i].ip == *ip {
                return Some(&self.whitelist[i]);
            }
            assert(self.whitelist@.skip(i as int).drop_first() =~= self.whitelist@.skip(i + 1));
            i = i + 1;
        }
        None
    }

    /// Requests per second for an address: its entry's own figure, else the default.
    pub fn get_ip_rps(&self, ip: &IpAddr) -> (r: u32)
        ensures
            r == self.ip_rps(*ip),
    {
        match self.entry(ip) {
            Some(w) => w.rps.unwrap_or(self.rate_limits.default_rps),
            None => self.rate_limits.default_rps,
        }
    }

    /// What [`Config::get_ip_rps`] returns.
    pub open spec fn ip_rps(self, ip: IpAddr) -> u32 {
        match entry_for(self.whitelist@, ip) {
            Some(w) => limit_or(w.rps, self.rate_limits.default_rps),
            None => self.rate_limits.default_rps,
        }
    }

    /// Transactions per second for an address: its entry's own figure, else the default.
    pub fn get_ip_tps(&self, ip: &IpAddr) -> (r: u32)
        ensures
            r == self.ip_tps(*ip),
    {
        match self.entry(ip) {
            Some(w) => w.tps.unwrap_or(self.rate_limits.default_tps),
            None => self.rate_limits.default_tps,
        }
    }

    /// What [`Config::get_ip_tps`] returns.
    pub open spec fn ip_tps(self, ip: IpAddr) -> u32 {
        match entry_for(self.whitelist@, ip) {
            Some(w) => limit_or(w.tps, self.rate_limits.default_tps),
            None => self.rate_limits.default_tps,
        }
    }

    /// Requests beyond the rate for an address: its entry's own figure, else the default.
    pub fn get_ip_burst_rps(&self, ip: &IpAddr) -> (r: u32)
        ensures
            r == self.ip_burst_rps(*ip),
    {
        match self.entry(ip) {
            Some(w) => w.burst_rps.unwrap_or(self.rate_limits.default_burst_rps),
            None => self.rate_limits.default_burst_rps,
        }
    }

    /// What [`Config::get_ip_burst_rps`] returns.
    pub open spec fn ip_burst_rps(self, ip: IpAddr) -> u32 {
        match entry_for(self.whitelist@, ip) {
            Some(w) => limit_or(w.burst_rps, self.rate_limits.default_burst_rps),
            None => self.rate_limits.default_burst_rps,
        }
    }

    /// Transactions beyond the rate for an address: its entry's own figure, else the default.
    pub fn get_ip_burst_tps(&self, ip: &IpAddr) -> (r: u32)
        ensures
            r == self.ip_burst_tps(*ip),
    {
        match self.entry(ip) {
            Some(w) => w.burst_tps.unwrap_or(self.rate_limits.default_burst_tps),
            None => self.rate_limits.default_burst_tps,
        }
    }

    /// What [`Config::get_ip_burst_tps`] returns.
    pub open spec fn ip_burst_tps(self, ip: IpAddr) -> u32 {
        match entry_for(self.whitelist@, ip) {
            Some(w) => limit_or(w.burst_tps, self.rate_limits.default_burst_tps),
            None => self.rate_limits.default_burst_tps,
        }
    }

    /// A copy of the node ids.
    fn all_ids(&self) -> (r: Vec<String>)
        ensures
            text::views(r@) == node_ids(self.nodes@),
    {
        let mut out: Vec<String> = Vec::new();
        let mut i: usize = 0;
        while i < self.nodes.len()
            invariant
                i <= self.nodes@.len(),
                text::views(out@) == node_ids(self.nodes@).take(i as int),
            decreases self.nodes@.len() - i,
        {
            let ghost before = out@;
            out.push(self.nodes[i].id.clone());
            assert(text::views(out@) =~= text::views(before).push(self.nodes@[i as int].id@));
            i = i + 1;
            assert(text::views(out@) =~= node_ids(self.nodes@).take(i as int));
        }
        assert(text::views(out@) =~= node_ids(self.nodes@));
        out
    }

    /// The ids of the nodes that transactions go to.
    pub fn get_send_tx_node_ids(&self) -> (r: Vec<String>)
        ensures
            text::views(r@) == target_ids(self.routing.send_tx_targets@, self.nodes@),
    {
        if text::str_eq(self.routing.send_tx_targets.as_str(), "all") {
            return self.all_ids();
        }
        let pieces = text::split_on(self.routing.send_tx_targets.as_str(), ',');
        let ghost all = text::split(self.routing.send_tx_targets@, ',').map_values(
            |s: Seq<char>| text::trimmed(s),
        );
        let ghost kept = |s: Seq<char>| s.len() > 0;
        let mut out: Vec<String> = Vec::new();
        let mut i: usize = 0;
        proof {
            reveal(Seq::filter);
            assert(text::views(out@) =~= all.take(0).filter(kept));
        }
        while i < pieces.len()
            invariant
                i <= pieces@.len(),
                all.len() == pieces@.len(),
                forall|j: int|
                    0 <= j < pieces@.len() ==> #[trigger] all[j] == text::trimmed(pieces@[j]@),
                kept == (|s: Seq<char>| s.len() > 0),
                text::views(out@) == all.take(i as int).filter(kept),
            decreases pieces@.len() - i,
        {
            let ghost before = out@;
            let t = text::trim(pieces[i].as_str());
            let ghost tv = t@;
            proof {
                reveal(Seq::filter);
                assert(all.take(i + 1).drop_last() =~= all.take(i as int));
                assert(all.take(i + 1).last() == tv);
            }
            if t.as_str().unicode_len() > 0 {
                out.push(t);
                assert(text::views(out@) =~= text::views(before).push(tv));
            }
            i = i + 1;
        }
        assert(all.take(i as int) =~= all);
        out
    }

    /// The ids of the nodes that serve gRPC: those in the configured regions, or every node where no
    /// region is configured.
    pub fn get_grpc_eligible_node_ids(&self) -> (r: Vec<String>)
        ensures
            text::views(r@) == ids_in_regions(self.nodes@, self.routing.grpc_regions@),
    {
        if self.routing.grpc_regions.len() == 0 {
            return self.all_ids();
        }
        let ghost ok = in_regions(self.routing.grpc_regions@);
        let mut out: Vec<String> = Vec::new();
        let mut i: usize = 0;
        proof {
            reveal(Seq::filter);
            assert(text::views(out@) =~= node_ids(self.nodes@.take(0).filter(ok)));
        }
        while i < self.nodes.len()
            invariant
                i <= self.nodes@.len(),
                ok == in_regions(self.routing.grpc_regions@),
                text::views(out@) == node_ids(self.nodes@.take(i as int).filter(ok)),
            decreases self.nodes@.len() - i,
        {
            let ghost before = out@;
            let ghost passed = self.nodes@.take(i as int).filter(ok);
            let node = &self.nodes[i];
            proof {
                reveal(Seq::filter);
                assert(self.nodes@.take(i + 1).drop_last() =~= self.nodes@.take(i as int));
                assert(node_ids(passed.push(*node)) =~= node_ids(passed).push(node.id@));
            }
            if text::contains_str(&self.routing.grpc_regions, node.region.as_str()) {
                out.push(node.id.clone());
                assert(text::views(out@) =~= text::views(before).push(node.id@));
            }
            i = i + 1;
        }
        assert(self.nodes@.take(i as int) =~= self.nodes@);
        out
    }
}

/// The entry of the whitelist that counts for an address is the first for it: each limit is that of the
/// entry where it gives one, and the default of the same kind where it does not, or where there is no
/// entry.
pub proof fn law_entry_overrides_the_defaults(c: Config, ip: IpAddr, i: int)
    requires
        0 <= i <= c.whitelist@.len(),
        forall|j: int| 0 <= j < i ==> (#[trigger] c.whitelist@[j]).ip != ip,
        i < c.whitelist@.len() ==> c.whitelist@[i].ip == ip,
    ensures
        ({
            let d = c.rate_limits;
            let w = c.whitelist@[i];
            let found = i < c.whitelist@.len();
            &&& found && w.rps is Some ==> c.ip_rps(ip) == w.rps->0
            &&& !found || w.rps is None ==> c.ip_rps(ip) == d.default_rps
            &&& found && w.tps is Some ==> c.ip_tps(ip) == w.tps->0
            &&& !found || w.tps is None ==> c.ip_tps(ip) == d.default_tps
            &&& found && w.burst_rps is Some ==> c.ip_burst_rps(ip) == w.burst_rps->0
            &&& !found || w.burst_rps is None ==> c.ip_burst_rps(ip) == d.default_burst_rps
            &&& found && w.burst_tps is Some ==> c.ip_burst_tps(ip) == w.burst_tps->0
            &&& !found || w.burst_tps is None ==> c.ip_burst_tps(ip) == d.default_burst_tps
        }),
{
    lemma_entry_for_is_first(c.whitelist@, ip, i);
}

proof fn lemma_entry_for_is_first(entries: Seq<WhitelistEntry>, ip: IpAddr, i: int)
    requires
        0 <= i <= entries.len(),
        forall|j: int| 0 <= j < i ==> (#[trigger] entries[j]).ip != ip,
        i < entries.len() ==> entries[i].ip == ip,
    ensures
        entry_for(entries, ip) == if i < entries.len() {
            Some(entries[i])
        } else {
            None
        },
    decreases entries.len(),
{
    if entries.len() > 0 && i > 0 {
        let rest = entries.drop_first();
        assert(entries[0].ip != ip);
        assert forall|j: int| 0 <= j < i - 1 implies (#[trigger] rest[j]).ip != ip by {
            assert(rest[j] == entries[j + 1]);
        }
        lemma_entry_for_is_first(rest, ip, i - 1);
    }
}

/// A limit of its own counts, zero too; the default counts only where there is none.
pub proof fn law_own_limit_counts(own: Option<u32>, default: u32, n: u32)
    ensures
        limit_or(Some(n), default) == n,
        limit_or(None, default) == default,
        own is Some ==> limit_or(own, default) == own->0,
{
}

/// What the whitelist hands out in sum is what each entry gets, added up: what one list hands out and
/// what another one does add up for both, and one entry gets its own limit or the default.
pub proof fn law_allocation_adds_up(
    a: Seq<WhitelistEntry>,
    b: Seq<WhitelistEntry>,
    w: WhitelistEntry,
    rps: u32,
    tps: u32,
)
    ensures
        sum_rps(a + b, rps) == sum_rps(a, rps) + sum_rps(b, rps),
        sum_tps(a + b, tps) == sum_tps(a, tps) + sum_tps(b, tps),
        w.rps is Some ==> sum_rps(seq![w], rps) == w.rps->0,
        w.rps is None ==> sum_rps(seq![w], rps) == rps,
        w.tps is Some ==> sum_tps(seq![w], tps) == w.tps->0,
        w.tps is None ==> sum_tps(seq![w], tps) == tps,
    decreases b.len(),
{
    let one = seq![w];
    assert(one.drop_last() =~= Seq::<WhitelistEntry>::empty());
    assert(sum_rps(one.drop_last(), rps) == 0);
    assert(sum_tps(one.drop_last(), tps) == 0);
    if b.len() == 0 {
        assert(a + b =~= a);
    } else {
        assert((a + b).drop_last() =~= a + b.drop_last());
        law_allocation_adds_up(a, b.drop_last(), w, rps, tps);
    }
}

/// It is reported of each global limit exactly where the whitelist hands out more in sum.
pub proof fn law_excess_is_reported(c: Config, a: Allocation)
    requires
        c.is_allocation(a),
    ensures
        a.rps_exceeds_global <==> sum_rps(c.whitelist@, c.rate_limits.default_rps)
            > c.rate_limits.global_rps,
        a.tps_exceeds_global <==> sum_tps(c.whitelist@, c.rate_limits.default_tps)
            > c.rate_limits.global_tps,
        a.total_rps == sum_rps(c.whitelist@, c.rate_limits.default_rps),
        a.total_tps == sum_tps(c.whitelist@, c.rate_limits.default_tps),
{
}

/// A configuration is refused exactly where no node results from it: it has none, and not the older form
/// either. Adding up alone asks for a node.
pub proof fn law_refused_without_a_node(
    parsed: Config,
    r: Result<(Config, Allocation), ConfigError>,
    v: Result<Allocation, ConfigError>,
)
    requires
        parsed.is_loaded(r),
        parsed.is_validated(v),
    ensures
        r is Err <==> parsed.nodes@.len() == 0 && parsed.upstream is None,
        r is Err ==> r->Err_0 is NoNodes,
        r matches Ok((c, a)) ==> parsed.loads_as(c, a) && c.nodes@.len() > 0,
        v is Err <==> parsed.nodes@.len() == 0,
        v is Ok ==> parsed.is_allocation(v->Ok_0),
{
}

/// A rate and the burst on top of it add up where their sum fits, each its own or the default.
pub proof fn law_rate_and_burst_add_up(rate: u32, burst: u32, other: u32, another: u32)
    ensures
        adds_up(Some(rate), Some(burst), other, another) <==> rate + burst <= 4294967295,
        adds_up(None, None, rate, burst) <==> rate + burst <= 4294967295,
        adds_up(Some(rate), None, other, burst) <==> rate + burst <= 4294967295,
        adds_up(None, Some(burst), rate, other) <==> rate + burst <= 4294967295,
{
}

/// The limits of a configuration are in range exactly where each rate adds up with its burst: the default
/// ones, those of every address, and those of every key that is not revoked.
pub proof fn law_limits_fit_with_their_bursts(c: Config)
    ensures
        c.limits_in_range() <==> {
            let d = c.rate_limits;
            &&& d.default_rps + d.default_burst_rps <= 4294967295
            &&& d.default_tps + d.default_burst_tps <= 4294967295
            &&& forall|w: WhitelistEntry| #[trigger]
                c.whitelist@.contains(w) ==> adds_up(
                    w.rps,
                    w.burst_rps,
                    d.default_rps,
                    d.default_burst_rps,
                ) && adds_up(w.tps, w.burst_tps, d.default_tps, d.default_burst_tps)
            &&& forall|k: ApiKeyEntry| #[trigger]
                c.api_keys@.contains(k) && !k.revoked ==> adds_up(
                    k.rps,
                    k.burst_rps,
                    d.default_rps,
                    d.default_burst_rps,
                ) && adds_up(k.tps, k.burst_tps, d.default_tps, d.default_burst_tps)
        },
{
    let d = c.rate_limits;
    if c.limits_in_range() {
        assert forall|w: WhitelistEntry| #[trigger] c.whitelist@.contains(w) implies adds_up(
            w.rps,
            w.burst_rps,
            d.default_rps,
            d.default_burst_rps,
        ) && adds_up(w.tps, w.burst_tps, d.default_tps, d.default_burst_tps) by {
            assert(c.whitelist@[c.whitelist@.index_of(w)] == w);
        }
        assert forall|k: ApiKeyEntry| #[trigger]
            c.api_keys@.contains(k) && !k.revoked implies adds_up(
            k.rps,
            k.burst_rps,
            d.default_rps,
            d.default_burst_rps,
        ) && adds_up(k.tps, k.burst_tps, d.default_tps, d.default_burst_tps) by {
            assert(c.api_keys@[c.api_keys@.index_of(k)] == k);
        }
    }
    assert forall|i: int| 0 <= i < c.whitelist@.len() implies c.whitelist@.contains(
        #[trigger] c.whitelist@[i],
    ) by {}
    assert forall|i: int| 0 <= i < c.api_keys@.len() implies c.api_keys@.contains(
        #[trigger] c.api_keys@[i],
    ) by {}
}

/// The older form counts only where there are no nodes; it then stands for one node, which has its URLs,
/// its token and its pool, each in its place, and no transaction sender. Nothing else is changed.
pub proof fn law_older_form_becomes_the_only_node(parsed: Config, c: Config, a: Allocation)
    requires
        parsed.loads_as(c, a),
    ensures
        parsed.nodes@.len() > 0 ==> c.nodes@ == parsed.nodes@,
        parsed.nodes@.len() == 0 ==> {
            let n = c.nodes@[0];
            let u = parsed.upstream->0;
            &&& c.nodes@.len() == 1
            &&& n.id@ == "primary"@ && n.label@ == "Primary"@ && n.region@ == "default"@
            &&& n.rpc_url@ == u.rpc_url@
            &&& n.ws_url@ == u.ws_url@
            &&& n.grpc_url@ == u.grpc_url@
            &&& n.arpc_url@ == u.arpc_url@
            &&& n.grpc_x_token@ == u.grpc_x_token@
            &&& n.iris_url is None
            &&& n.rpc_pool_max_idle == u.rpc_pool_max_idle
            &&& n.rpc_pool_idle_timeout_secs == u.rpc_pool_idle_timeout_secs
            &&& n.priority == 1
        },
        c.upstream is None,
        c.general == parsed.general,
        c.rate_limits == parsed.rate_limits,
        c.cpu == parsed.cpu,
        c.firewall == parsed.firewall,
        c.health == parsed.health,
        c.grpc == parsed.grpc,
        c.routing == parsed.routing,
        c.whitelist == parsed.whitelist,
        c.api_keys == parsed.api_keys,
{
}

/// The ids that transactions go to are all where the setting says so, and else those that are listed
/// between commas, without the white space around them: an id is among them exactly where some piece
/// comes to it and it is not empty.
pub proof fn law_targets_are_those_listed(targets: Seq<char>, nodes: Seq<NodeConfig>, id: Seq<char>)
    ensures
        targets == "all"@ ==> (target_ids(targets, nodes).contains(id) <==> exists|i: int|
            0 <= i < nodes.len() && (#[trigger] nodes[i]).id@ == id),
        targets == "all"@ ==> target_ids(targets, nodes).len() == nodes.len(),
        targets != "all"@ ==> (target_ids(targets, nodes).contains(id) <==> id.len() > 0
            && exists|i: int|
            0 <= i < text::split(targets, ',').len() && text::trimmed(
                #[trigger] text::split(targets, ',')[i],
            ) == id),
{
    if targets == "all"@ {
        let ids = node_ids(nodes);
        if ids.contains(id) {
            let i = ids.index_of(id);
            assert(nodes[i].id@ == id);
        }
        if exists|i: int| 0 <= i < nodes.len() && (#[trigger] nodes[i]).id@ == id {
            let i = choose|i: int| 0 <= i < nodes.len() && (#[trigger] nodes[i]).id@ == id;
            assert(ids[i] == id);
        }
    } else {
        let pieces = text::split(targets, ',');
        let all = pieces.map_values(|s: Seq<char>| text::trimmed(s));
        let kept = |s: Seq<char>| s.len() > 0;
        broadcast use vstd::seq_lib::group_filter_ensures;
        if all.filter(kept).contains(id) {
            let k = all.filter(kept).index_of(id);
            assert(kept(all.filter(kept)[k]));
            all.lemma_filter_contains_rev(kept, id);
            let i = all.index_of(id);
            assert(text::trimmed(pieces[i]) == id);
        }
        if id.len() > 0 && exists|i: int|
            0 <= i < pieces.len() && text::trimmed(#[trigger] pieces[i]) == id {
            let i = choose|i: int|
                0 <= i < pieces.len() && text::trimmed(#[trigger] pieces[i]) == id;
            assert(all[i] == id);
            assert(all.contains(id));
        }
    }
}

/// What was made ready for use has a node, and making it ready again changes nothing.
pub proof fn law_loading_again_changes_nothing(
    parsed: Config,
    c: Config,
    a: Allocation,
    again: Config,
    b: Allocation,
)
    requires
        parsed.loads_as(c, a),
        c.loads_as(again, b),
    ensures
        c.nodes@.len() > 0,
        again == c,
        b == a,
{
}

/// `0.0.0.0:8899`.
pub fn default_rpc_bind() -> (r: String)
    ensures
        r@ == "0.0.0.0:8899"@,
{
    "0.0.0.0:8899".to_string()
}

/// `0.0.0.0:8900`.
pub fn default_ws_bind() -> (r: String)
    ensures
        r@ == "0.0.0.0:8900"@,
{
    "0.0.0.0:8900".to_string()
}

/// `0.0.0.0:10101`.
pub fn default_grpc_bind() -> (r: String)
    ensures
        r@ == "0.0.0.0:10101"@,
{
    "0.0.0.0:10101".to_string()
}

/// `0.0.0.0:20202`.
pub fn default_arpc_bind() -> (r: String)
    ensures
        r@ == "0.0.0.0:20202"@,
{
    "0.0.0.0:20202".to_string()
}

/// `127.0.0.1:9000`.
pub fn default_dashboard_bind() -> (r: String)
    ensures
        r@ == "127.0.0.1:9000"@,
{
    "127.0.0.1:9000".to_string()
}

/// `admin`.
pub fn default_dashboard_user() -> (r: String)
    ensures
        r@ == "admin"@,
{
    "admin".to_string()
}

/// `admin`.
pub fn default_dashboard_pass() -> (r: String)
    ensures
        r@ == "admin"@,
{
    "admin".to_string()
}

/// `/var/lib/solana-rpc-cluster`.
pub fn default_data_dir() -> (r: String)
    ensures
        r@ == "/var/lib/solana-rpc-cluster"@,
{
    "/var/lib/solana-rpc-cluster".to_string()
}

/// `info`.
pub fn default_log_level() -> (r: String)
    ensures
        r@ == "info"@,
{
    "info".to_string()
}

/// `nftables`.
pub fn default_fw_backend() -> (r: String)
    ensures
        r@ == "nftables"@,
{
    "nftables".to_string()
}

/// `solana-rpc-cluster`.
pub fn default_chain_name() -> (r: String)
    ensures
        r@ == "solana-rpc-cluster"@,
{
    "solana-rpc-cluster".to_string()
}

/// `all`.
pub fn default_send_tx_targets() -> (r: String)
    ensures
        r@ == "all"@,
{
    "all".to_string()
}

pub fn default_pool_max_idle() -> (r: usize)
    ensures
        r == 32,
{
    32
}

pub fn default_pool_idle_timeout() -> (r: u64)
    ensures
        r == 60,
{
    60
}

pub fn default_priority() -> (r: u32)
    ensures
        r == 10,
{
    10
}

pub fn default_global_rps() -> (r: u32)
    ensures
        r == 1250,
{
    1250
}

pub fn default_global_tps() -> (r: u32)
    ensures
        r == 250,
{
    250
}

pub fn default_per_ip_rps() -> (r: u32)
    ensures
        r == 200,
{
    200
}

pub fn default_per_ip_tps() -> (r: u32)
    ensures
        r == 50,
{
    50
}

pub fn default_burst_rps() -> (r: u32)
    ensures
        r == 20,
{
    20
}

pub fn default_burst_tps() -> (r: u32)
    ensures
        r == 5,
{
    5
}

pub fn default_check_interval() -> (r: u64)
    ensures
        r == 5,
{
    5
}

pub fn default_unhealthy_threshold() -> (r: u32)
    ensures
        r == 3,
{
    3
}

pub fn default_healthy_threshold() -> (r: u32)
    ensures
        r == 2,
{
    2
}

pub fn default_timeout_ms() -> (r: u64)
    ensures
        r == 3000,
{
    3000
}

pub fn default_grpc_conn_window() -> (r: u32)
    ensures
        r == 16 * 1024 * 1024,
{
    16 * 1024 * 1024
}

pub fn default_grpc_stream_window() -> (r: u32)
    ensures
        r == 4 * 1024 * 1024,
{
    4 * 1024 * 1024
}

pub fn default_grpc_adaptive_window() -> (r: bool)
    ensures
        r == true,
{
    true
}

pub fn default_grpc_concurrency_limit() -> (r: usize)
    ensures
        r == 256,
{
    256
}

pub fn default_grpc_broadcast_capacity() -> (r: usize)
    ensures
        r == 65536,
{
    65536
}

pub fn default_grpc_client_channel_capacity() -> (r: usize)
    ensures
        r == 4096,
{
    4096
}

pub fn default_grpc_max_lag_events() -> (r: u64)
    ensures
        r == 3,
{
    3
}

pub fn default_grpc_keepalive_interval() -> (r: u64)
    ensures
        r == 20,
{
    20
}

pub fn default_grpc_keepalive_timeout() -> (r: u64)
    ensures
        r == 10,
{
    10
}

pub fn default_grpc_multi_region_enabled() -> (r: bool)
    ensures
        r == true,
{
    true
}

pub fn default_grpc_dedup_window_secs() -> (r: u64)
    ensures
        r == 30,
{
    30
}

pub fn default_grpc_dedup_eviction_interval_secs() -> (r: u64)
    ensures
        r == 5,
{
    5
}

impl Default for HealthConfig {
    fn default() -> (r: Self)
        ensures
            r.check_interval_secs == 5,
            r.unhealthy_threshold == 3,
            r.healthy_threshold == 2,
            r.timeout_ms == 3000,
    {
        HealthConfig {
            check_interval_secs: default_check_interval(),
            unhealthy_threshold: default_unhealthy_threshold(),
            healthy_threshold: default_healthy_threshold(),
            timeout_ms: default_timeout_ms(),
        }
    }
}

impl Default for RoutingConfig {
    fn default() -> (r: Self)
        ensures
            r.send_tx_targets@ == "all"@,
            r.grpc_regions@.len() == 0,
    {
        RoutingConfig {
            send_tx_targets: default_send_tx_targets(),
            grpc_regions: Vec::new(),
        }
    }
}

impl Default for GrpcConfig {
    fn default() -> (r: Self)
        ensures
            r.connection_window_bytes == 16 * 1024 * 1024,
            r.stream_window_bytes == 4 * 1024 * 1024,
            r.adaptive_window == true,
            r.concurrency_limit == 256,
            r.broadcast_capacity == 65536,
            r.client_channel_capacity == 4096,
            r.max_lag_events == 3,
            r.keepalive_interval_secs == 20,
            r.keepalive_timeout_secs == 10,
            r.multi_region_enabled == true,
            r.dedup_window_secs == 30,
            r.dedup_eviction_interval_secs == 5,
    {
        GrpcConfig {
            connection_window_bytes: default_grpc_conn_window(),
            stream_window_bytes: default_grpc_stream_window(),
            adaptive_window: default_grpc_adaptive_window(),
            concurrency_limit: default_grpc_concurrency_limit(),
            broadcast_capacity: default_grpc_broadcast_capacity(),
            client_channel_capacity: default_grpc_client_channel_capacity(),
            max_lag_events: default_grpc_max_lag_events(),
            keepalive_interval_secs: default_grpc_keepalive_interval(),
            keepalive_timeout_secs: default_grpc_keepalive_timeout(),
            multi_region_enabled: default_grpc_multi_region_enabled(),
            dedup_window_secs: default_grpc_dedup_window_secs(),
            dedup_eviction_interval_secs: default_grpc_dedup_eviction_interval_secs(),
        }
    }
}

impl Default for CpuConfig {
    fn default() -> (r: Self)
        ensures
            r.cores@.len() == 0,
            r.worker_threads is None,
    {
        CpuConfig { cores: Vec::new(), worker_threads: None }
    }
}

/// A missing firewall section leaves the names empty; the named defaults are for a section that
/// is there and does not give them.
impl Default for FirewallConfig {
    fn default() -> (r: Self)
        ensures
            !r.enabled,
            r.backend@.len() == 0,
            r.chain_name@.len() == 0,
    {
        FirewallConfig { enabled: false, backend: String::new(), chain_name: String::new() }
    }
}

} // verus!
