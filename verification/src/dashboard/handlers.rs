//! What the dashboard shows, and what it changes.

use crate::cluster::health;
use crate::cluster::health::NodeHealth;
use crate::cluster::NodeEntry;
use crate::config;
use crate::config::{ApiKeyEntry, Config, RateLimitConfig, WhitelistEntry};
use crate::middleware::api_keys;
use crate::middleware::api_keys::ApiKeyData;
use crate::middleware::rate_limiter;
use crate::names;
use crate::net::IpAddr;
use crate::proxy::gate::Gate;
use crate::stats;
use crate::stats::{GlobalStatsSnapshot, IpStatsSnapshot, Stats};
use crate::text;
use vstd::prelude::*;
use vstd::string::StringExecFns;
use vstd::string::StringSliceAdditionalSpecFns;

verus! {

/// Why a change is refused.
#[derive(Debug, Clone, Copy, PartialEq, Eq, Structural)]
pub enum AdminError {
    /// What stands for an address is none.
    BadRequest,
    /// There is no such address or key.
    NotFound,
}

impl AdminError {
    /// The HTTP status.
    pub open spec fn code(self) -> u16 {
        match self {
            AdminError::BadRequest => 400,
            AdminError::NotFound => 404,
        }
    }

    /// The HTTP status.
    pub fn status(&self) -> (r: u16)
        ensures
            r == self.code(),
    {
        match self {
            AdminError::BadRequest => 400,
            AdminError::NotFound => 404,
        }
    }
}

/// The counters, in all and of every client.
pub struct StatsResponse {
    pub global: GlobalStatsSnapshot,
    pub per_ip: Vec<(IpAddr, IpStatsSnapshot)>,
}

/// An address on the whitelist, with the limits that it has.
#[derive(Debug)]
pub struct IpEntry {
    pub ip: IpAddr,
    pub label: String,
    pub rps: u32,
    pub tps: u32,
    pub burst_rps: u32,
    pub burst_tps: u32,
}

/// A request to put an address on the whitelist or to change its entry. The address is missing
/// where what was sent is none.
#[derive(Debug)]
pub struct AddIpRequest {
    pub ip: Option<IpAddr>,
    pub label: String,
    pub rps: Option<u32>,
    pub tps: Option<u32>,
    pub burst_rps: Option<u32>,
    pub burst_tps: Option<u32>,
}

/// A node as it is shown.
#[derive(Debug)]
pub struct NodeHealthEntry {
    pub id: String,
    pub label: String,
    pub region: String,
    pub status: &'static str,
    pub latency_ms: u64,
    pub last_slot: u64,
    pub total_checks: u64,
    pub total_successes: u64,
    pub iris_healthy: bool,
    pub iris_configured: bool,
    pub wins: u64,
    pub dupes: u64,
    pub last_msg_age_secs: u64,
}

/// A key as it is shown, without most of itself.
#[derive(Debug)]
pub struct ApiKeyResponse {
    pub key_prefix: String,
    pub label: String,
    pub rps: Option<u32>,
    pub tps: Option<u32>,
    pub created_at: String,
}

/// A request for a new key.
#[derive(Debug)]
pub struct CreateKeyRequest {
    pub label: String,
    pub rps: Option<u32>,
    pub tps: Option<u32>,
    pub burst_rps: Option<u32>,
    pub burst_tps: Option<u32>,
}

/// A node in the report of the proxy's own health.
#[derive(Debug)]
pub struct NodeBrief {
    pub id: String,
    pub status: &'static str,
    pub latency_ms: u64,
}

/// The proxy's own health.
#[derive(Debug)]
pub struct HealthReport {
    pub uptime_secs: u64,
    pub nodes: Vec<NodeBrief>,
    pub whitelisted_ips: usize,
    pub api_keys: usize,
}

/// What a dashboard that is open is sent every second.
pub struct WsStatsMessage {
    pub global: GlobalStatsSnapshot,
    pub per_ip: Vec<(IpAddr, IpStatsSnapshot)>,
    pub ips: Vec<IpEntry>,
    pub nodes: Vec<NodeHealthEntry>,
    pub api_keys_count: usize,
}

/// `e` shows a whitelist entry, with the defaults in place of limits that it leaves open.
pub open spec fn shows_entry(e: IpEntry, w: WhitelistEntry, d: RateLimitConfig) -> bool {
    &&& e.ip == w.ip
    &&& e.label == w.label
    &&& e.rps == config::limit_or(w.rps, d.default_rps)
    &&& e.tps == config::limit_or(w.tps, d.default_tps)
    &&& e.burst_rps == config::limit_or(w.burst_rps, d.default_burst_rps)
    &&& e.burst_tps == config::limit_or(w.burst_tps, d.default_burst_tps)
}

/// `list` shows the whitelist, in order.
pub open spec fn shows_whitelist(list: Seq<IpEntry>, c: Config) -> bool {
    &&& list.len() == c.whitelist@.len()
    &&& forall|i: int|
        0 <= i < list.len() ==> shows_entry(#[trigger] list[i], c.whitelist@[i], c.rate_limits)
}

/// The name of a status.
pub open spec fn status_name(code: u8) -> Seq<char> {
    health::status_of(code).name()
}

/// Seconds since the last message of a node's region, or the highest number where none came.
pub open spec fn message_age(h: NodeHealth, now_ms: u64) -> u64 {
    if h.last_msg_ms == 0 {
        u64::MAX
    } else if now_ms >= h.last_msg_ms {
        ((now_ms - h.last_msg_ms) / 1000) as u64
    } else {
        0
    }
}

/// `e` shows a node.
pub open spec fn shows_node(e: NodeHealthEntry, n: NodeEntry, now_ms: u64) -> bool {
    &&& e.id == n.config.id
    &&& e.label == n.config.label
    &&& e.region == n.config.region
    &&& e.status@ == status_name(n.health.status)
    &&& e.latency_ms == n.health.latency_ms
    &&& e.last_slot == n.health.last_slot
    &&& e.total_checks == n.health.total_checks
    &&& e.total_successes == n.health.total_successes
    &&& e.iris_healthy == n.health.iris_healthy
    &&& e.iris_configured == n.config.iris_url is Some
    &&& e.wins == n.health.wins
    &&& e.dupes == n.health.dupes
    &&& e.last_msg_age_secs == message_age(n.health, now_ms)
}

/// `list` shows the nodes, in order.
pub open spec fn shows_nodes(list: Seq<NodeHealthEntry>, nodes: Seq<NodeEntry>, now_ms: u64) -> bool {
    &&& list.len() == nodes.len()
    &&& forall|i: int|
        0 <= i < list.len() ==> shows_node(#[trigger] list[i], nodes[i], now_ms)
}

/// `r` shows the counters, in all and of every client.
pub open spec fn shows_stats(stats: Stats, uptime_secs: u64, r: StatsResponse) -> bool {
    &&& stats.is_shown_in_all(uptime_secs, r.global)
    &&& stats::shows(r.per_ip@, stats.by_ip())
}

/// `r` is the report of the proxy's own health.
pub open spec fn is_report(
    c: Config,
    nodes: Seq<NodeEntry>,
    uptime_secs: u64,
    r: HealthReport,
) -> bool {
    &&& r.uptime_secs == uptime_secs
    &&& r.whitelisted_ips == c.whitelist@.len()
    &&& r.api_keys == active_keys(c.api_keys@)
    &&& r.nodes@.len() == nodes.len()
    &&& forall|i: int|
        0 <= i < nodes.len() ==> (#[trigger] r.nodes@[i]).id == nodes[i].config.id
            && r.nodes@[i].status@ == status_name(nodes[i].health.status)
            && r.nodes@[i].latency_ms == nodes[i].health.latency_ms
}

/// `r` is what a dashboard that is open is sent.
pub open spec fn is_message(
    gate: Gate,
    nodes: Seq<NodeEntry>,
    uptime_secs: u64,
    now_ms: u64,
    r: WsStatsMessage,
) -> bool {
    &&& gate.stats.is_shown_in_all(uptime_secs, r.global)
    &&& stats::shows(r.per_ip@, gate.stats.by_ip())
    &&& shows_whitelist(r.ips@, gate.rate_limiter.config)
    &&& shows_nodes(r.nodes@, nodes, now_ms)
    &&& r.api_keys_count == active_keys(gate.rate_limiter.config.api_keys@)
}

/// `list` shows the keys, in order.
pub open spec fn shows_keys(list: Seq<ApiKeyResponse>, keys: Seq<(String, ApiKeyData)>) -> bool {
    &&& list.len() == keys.len()
    &&& forall|i: int|
        0 <= i < keys.len() ==> shows_key(#[trigger] list[i], keys[i].0@, keys[i].1)
}

/// How many entries are not revoked.
pub open spec fn active_keys(entries: Seq<ApiKeyEntry>) -> nat
    decreases entries.len(),
{
    if entries.len() == 0 {
        0
    } else {
        active_keys(entries.drop_last()) + if entries.last().revoked {
            0nat
        } else {
            1nat
        }
    }
}

/// The key can be shown in part: it is short, or can be cut after eight bytes and before the last
/// four.
pub open spec fn maskable(key: Seq<char>) -> bool {
    let b = vstd::utf8::encode_utf8(key);
    b.len() > 12 ==> vstd::utf8::is_char_boundary(b, 8) && vstd::utf8::is_char_boundary(
        b,
        b.len() - 4,
    )
}

/// The key as it is shown: its first eight and its last four bytes, or all of it where it is short.
pub open spec fn masked(key: Seq<char>) -> Seq<char> {
    let b = vstd::utf8::encode_utf8(key);
    if b.len() > 12 {
        vstd::utf8::decode_utf8(b.subrange(0, 8)) + "..."@ + vstd::utf8::decode_utf8(
            b.subrange(b.len() - 4, b.len() as int),
        )
    } else {
        key
    }
}

/// The key is meant by what a user typed: its beginning, or the way it is shown.
pub open spec fn is_meant(key: Seq<char>, typed: Seq<char>) -> bool {
    typed.is_prefix_of(key) || masked(key) == typed
}

/// Every key in use that does not begin with what a user typed can be shown.
pub open spec fn can_be_looked_for(keys: Map<Seq<char>, ApiKeyData>, typed: Seq<char>) -> bool {
    forall|k: Seq<char>| #[trigger]
        keys.contains_key(k) ==> typed.is_prefix_of(k) || maskable(k)
}

/// No key has two entries.
pub open spec fn distinct_keys(entries: Seq<ApiKeyEntry>) -> bool {
    forall|i: int, j: int|
        0 <= i < j < entries.len() ==> (#[trigger] entries[i]).key@ != (#[trigger] entries[j]).key@
}

/// The addresses of whitelist entries.
pub open spec fn ips_of(entries: Seq<WhitelistEntry>) -> Seq<IpAddr> {
    entries.map_values(|w: WhitelistEntry| w.ip)
}

/// One more entry, one more address.
proof fn lemma_ips_push(before: Seq<WhitelistEntry>, after: Seq<WhitelistEntry>)
    requires
        after.len() > 0,
        after.drop_last() == before,
    ensures
        ips_of(after).to_set() == ips_of(before).to_set().insert(after.last().ip),
{
    assert(ips_of(after) =~= ips_of(before).push(after.last().ip));
    ips_of(before).lemma_push_to_set_commute(after.last().ip);
}

/// Without the entries for an address, the address is gone, and no other one is.
proof fn lemma_ips_filter(before: Seq<WhitelistEntry>, ip: IpAddr)
    ensures
        ips_of(before.filter(|w: WhitelistEntry| w.ip != ip)).to_set() == ips_of(
            before,
        ).to_set().remove(ip),
    decreases before.len(),
{
    reveal(Seq::filter);
    let keep = |w: WhitelistEntry| w.ip != ip;
    if before.len() == 0 {
        assert(before.filter(keep) =~= before);
        assert(ips_of(before).to_set().remove(ip) =~= ips_of(before).to_set());
    } else {
        let rest = before.drop_last();
        let last = before.last();
        lemma_ips_filter(rest, ip);
        lemma_ips_push(rest, before);
        if keep(last) {
            let all = before.filter(keep);
            assert(all == rest.filter(keep).push(last));
            assert(all.drop_last() =~= rest.filter(keep));
            lemma_ips_push(rest.filter(keep), all);
        }
        assert(ips_of(before.filter(keep)).to_set() =~= ips_of(before).to_set().remove(ip));
    }
}

/// Seconds since the last message of a node's region.
pub fn last_msg_age_secs(health: &NodeHealth, now_ms: u64) -> (r: u64)
    ensures
        r == message_age(*health, now_ms),
{
    if health.last_msg_ms == 0 {
        return u64::MAX;
    }
    now_ms.saturating_sub(health.last_msg_ms) / 1000
}

/// The counters, in all and of every client.
pub fn get_stats(stats: &Stats, uptime_secs: u64) -> (r: StatsResponse)
    requires
        stats.wf(),
    ensures
        shows_stats(*stats, uptime_secs, r),
{
    StatsResponse { global: stats.global_snapshot(uptime_secs), per_ip: stats.snapshots() }
}

/// The whitelist, with the limits that each address has.
pub fn list_ips(config: &Config) -> (r: Vec<IpEntry>)
    ensures
        shows_whitelist(r@, *config),
{
    let d = config.rate_limits;
    let mut out: Vec<IpEntry> = Vec::new();
    let mut i: usize = 0;
    while i < config.whitelist.len()
        invariant
            i <= config.whitelist@.len(),
            d == config.rate_limits,
            out@.len() == i,
            forall|j: int|
                0 <= j < i ==> shows_entry(#[trigger] out@[j], config.whitelist@[j], d),
        decreases config.whitelist@.len() - i,
    {
        let w = &config.whitelist[i];
        out.push(
            IpEntry {
                ip: w.ip,
                label: w.label.clone(),
                rps: w.rps.unwrap_or(d.default_rps),
                tps: w.tps.unwrap_or(d.default_tps),
                burst_rps: w.burst_rps.unwrap_or(d.default_burst_rps),
                burst_tps: w.burst_tps.unwrap_or(d.default_burst_tps),
            },
        );
        i = i + 1;
    }
    out
}

/// The whitelist entry that a request asks for.
pub open spec fn is_requested(w: WhitelistEntry, ip: IpAddr, body: AddIpRequest) -> bool {
    &&& w.ip == ip
    &&& w.label == body.label
    &&& w.rps == body.rps
    &&& w.tps == body.tps
    &&& w.burst_rps == body.burst_rps
    &&& w.burst_tps == body.burst_tps
}

/// The configurations differ at most in the whitelist.
pub open spec fn same_but_whitelist(a: Config, b: Config) -> bool {
    &&& a.general == b.general
    &&& a.nodes == b.nodes
    &&& a.rate_limits == b.rate_limits
    &&& a.cpu == b.cpu
    &&& a.firewall == b.firewall
    &&& a.health == b.health
    &&& a.grpc == b.grpc
    &&& a.routing == b.routing
    &&& a.api_keys == b.api_keys
    &&& a.upstream == b.upstream
}

/// The configurations differ at most in the keys.
pub open spec fn same_but_keys(a: Config, b: Config) -> bool {
    &&& a.general == b.general
    &&& a.nodes == b.nodes
    &&& a.rate_limits == b.rate_limits
    &&& a.cpu == b.cpu
    &&& a.firewall == b.firewall
    &&& a.health == b.health
    &&& a.grpc == b.grpc
    &&& a.routing == b.routing
    &&& a.whitelist == b.whitelist
    &&& a.upstream == b.upstream
}

/// The limiters are those that the configuration sets up.
pub open spec fn limits_are_fresh(g: Gate) -> bool {
    let c = g.rate_limiter.config;
    &&& g.rate_limiter.by_ip() == rate_limiter::whitelist_limits(c.whitelist@, c.rate_limits)
    &&& g.rate_limiter.by_key() == rate_limiter::keys_limits(c.api_keys@, c.rate_limits)
    &&& g.rate_limiter.unasked()
}

/// Rates and bursts that a request asks for add up, with the defaults where it leaves them open.
pub open spec fn request_adds_up(
    rps: Option<u32>,
    burst_rps: Option<u32>,
    tps: Option<u32>,
    burst_tps: Option<u32>,
    d: RateLimitConfig,
) -> bool {
    &&& config::adds_up(rps, burst_rps, d.default_rps, d.default_burst_rps)
    &&& config::adds_up(tps, burst_tps, d.default_tps, d.default_burst_tps)
}

/// Whether rates and bursts that a request asks for add up.
pub fn request_fits(
    rps: Option<u32>,
    burst_rps: Option<u32>,
    tps: Option<u32>,
    burst_tps: Option<u32>,
    d: &RateLimitConfig,
) -> (r: bool)
    ensures
        r == request_adds_up(rps, burst_rps, tps, burst_tps, *d),
{
    config::sum_fits(rps, burst_rps, d.default_rps, d.default_burst_rps) && config::sum_fits(
        tps,
        burst_tps,
        d.default_tps,
        d.default_burst_tps,
    )
}

/// What became of a request to put an address on the whitelist.
pub open spec fn is_added(
    before: Gate,
    after: Gate,
    body: AddIpRequest,
    r: Result<IpAddr, AdminError>,
) -> bool {
    match r {
        Ok(ip) => {
            let was = before.rate_limiter.config;
            let now = after.rate_limiter.config;
            &&& body.ip == Some(ip)
            &&& after.whitelist@ == before.whitelist@.insert(ip)
            &&& same_but_whitelist(now, was)
            &&& now.whitelist@.len() == was.whitelist@.len() + 1
            &&& now.whitelist@.drop_last() == was.whitelist@
            &&& is_requested(now.whitelist@.last(), ip, body)
            &&& limits_are_fresh(after)
        },
        Err(e) => {
            &&& e == AdminError::BadRequest
            &&& body.ip is None
            &&& after == before
        },
    }
}

/// What became of a request to change the entry of an address.
pub open spec fn is_updated(
    before: Gate,
    after: Gate,
    ip: Option<IpAddr>,
    body: AddIpRequest,
    r: Result<(), AdminError>,
) -> bool {
    let was = before.rate_limiter.config;
    let now = after.rate_limiter.config;
    match r {
        Ok(_) => {
            &&& ip is Some
            &&& same_but_whitelist(now, was)
            &&& limits_are_fresh(after)
            &&& exists|i: int| #[trigger]
                is_first_entry(was.whitelist@, ip->0, i) && now.whitelist@
                    == was.whitelist@.update(i, changed(was.whitelist@[i], body))
        },
        Err(e) => {
            &&& after == before
            &&& e == if ip is None {
                AdminError::BadRequest
            } else {
                AdminError::NotFound
            }
            &&& ip is Some ==> forall|j: int|
                0 <= j < was.whitelist@.len() ==> (#[trigger] was.whitelist@[j]).ip != ip->0
        },
    }
}

/// What became of a request to take an address off the whitelist.
pub open spec fn is_removed(
    before: Gate,
    after: Gate,
    ip: Option<IpAddr>,
    r: Result<IpAddr, AdminError>,
) -> bool {
    match r {
        Ok(addr) => {
            let was = before.rate_limiter.config;
            let now = after.rate_limiter.config;
            &&& ip == Some(addr)
            &&& after.whitelist@ == before.whitelist@.remove(addr)
            &&& same_but_whitelist(now, was)
            &&& now.whitelist@ == was.whitelist@.filter(|w: WhitelistEntry| w.ip != addr)
            &&& limits_are_fresh(after)
        },
        Err(e) => {
            &&& e == AdminError::BadRequest
            &&& ip is None
            &&& after == before
        },
    }
}

/// A key has been put in use, with an entry in the configuration.
pub open spec fn is_created(
    before: Gate,
    after: Gate,
    key: Seq<char>,
    body: CreateKeyRequest,
    created_at: Seq<char>,
) -> bool {
    let was = before.rate_limiter.config;
    let now = after.rate_limiter.config;
    &&& after.api_keys@ == before.api_keys@.insert(key, api_keys::data_of(now.api_keys@.last()))
    &&& same_but_keys(now, was)
    &&& now.api_keys@.len() == was.api_keys@.len() + 1
    &&& now.api_keys@.drop_last() == was.api_keys@
    &&& is_new_key(now.api_keys@.last(), key, body, created_at)
    &&& limits_are_fresh(after)
}

/// What became of a request to take a key out of use.
pub open spec fn is_revoked(
    before: Gate,
    after: Gate,
    typed: Seq<char>,
    r: Result<(), AdminError>,
) -> bool {
    match r {
        Ok(_) => exists|key: Seq<char>|
            {
                let was = before.rate_limiter.config;
                let now = after.rate_limiter.config;
                &&& #[trigger] before.api_keys@.contains_key(key)
                &&& is_meant(key, typed)
                &&& after.api_keys@ == before.api_keys@.remove(key)
                &&& same_but_keys(now, was)
                &&& now.api_keys@ == with_revoked(was.api_keys@, key)
                &&& limits_are_fresh(after)
            },
        Err(e) => {
            &&& e == AdminError::NotFound
            &&& after == before
            &&& forall|key: Seq<char>| #[trigger]
                before.api_keys@.contains_key(key) ==> !is_meant(key, typed)
        },
    }
}

/// Puts an address on the whitelist, with an entry of its own, and starts the limiters over.
pub fn add_ip(gate: &mut Gate, body: AddIpRequest) -> (r: Result<IpAddr, AdminError>)
    requires
        old(gate).wf(),
        body.ip is Some ==> request_adds_up(
            body.rps,
            body.burst_rps,
            body.tps,
            body.burst_tps,
            old(gate).rate_limiter.config.rate_limits,
        ),
    ensures
        final(gate).wf(),
        old(gate).agrees() ==> final(gate).agrees(),
        final(gate).stats == old(gate).stats,
        final(gate).api_keys == old(gate).api_keys,
        is_added(*old(gate), *final(gate), body, r),
{
    let ip = match body.ip {
        Some(ip) => ip,
        None => {
            return Err(AdminError::BadRequest);
        },
    };
    gate.whitelist.add_ip(ip);
    let ghost before = gate.rate_limiter.config;
    gate.rate_limiter.config.whitelist.push(
        WhitelistEntry {
            ip,
            label: body.label,
            rps: body.rps,
            tps: body.tps,
            burst_rps: body.burst_rps,
            burst_tps: body.burst_tps,
        },
    );
    proof {
        let after = gate.rate_limiter.config;
        assert(after.whitelist@.drop_last() =~= before.whitelist@);
        assert forall|i: int| 0 <= i < after.whitelist@.len() implies {
            let w = #[trigger] after.whitelist@[i];
            let d = after.rate_limits;
            &&& config::adds_up(w.rps, w.burst_rps, d.default_rps, d.default_burst_rps)
            &&& config::adds_up(w.tps, w.burst_tps, d.default_tps, d.default_burst_tps)
        } by {
            if i < before.whitelist@.len() {
                assert(after.whitelist@[i] == before.whitelist@[i]);
            }
        }
        assert(after.limits_in_range());
        lemma_ips_push(before.whitelist@, after.whitelist@);
    }
    gate.rate_limiter.rebuild();
    Ok(ip)
}

/// An entry after a change that was asked for: a label that is not empty, and limits that are
/// given, replace what was there.
pub open spec fn changed(w: WhitelistEntry, body: AddIpRequest) -> WhitelistEntry {
    WhitelistEntry {
        ip: w.ip,
        label: if body.label@.len() > 0 {
            body.label
        } else {
            w.label
        },
        rps: if body.rps is Some {
            body.rps
        } else {
            w.rps
        },
        tps: if body.tps is Some {
            body.tps
        } else {
            w.tps
        },
        burst_rps: if body.burst_rps is Some {
            body.burst_rps
        } else {
            w.burst_rps
        },
        burst_tps: if body.burst_tps is Some {
            body.burst_tps
        } else {
            w.burst_tps
        },
    }
}

/// `i` is the first entry for an address.
pub open spec fn is_first_entry(entries: Seq<WhitelistEntry>, ip: IpAddr, i: int) -> bool {
    &&& 0 <= i < entries.len()
    &&& entries[i].ip == ip
    &&& forall|j: int| 0 <= j < i ==> (#[trigger] entries[j]).ip != ip
}

/// The position of the first entry for an address.
pub fn find_entry(entries: &Vec<WhitelistEntry>, ip: &IpAddr) -> (r: Option<usize>)
    ensures
        match r {
            Some(i) => is_first_entry(entries@, *ip, i as int),
            None => forall|j: int| 0 <= j < entries@.len() ==> (#[trigger] entries@[j]).ip != *ip,
        },
{
    let mut i: usize = 0;
    while i < entries.len()
        invariant
            i <= entries@.len(),
            forall|j: int| 0 <= j < i ==> (#[trigger] entries@[j]).ip != *ip,
        decreases entries@.len() - i,
    {
        if entries[i].ip == *ip {
            return Some(i);
        }
        i = i + 1;
    }
    None
}

/// Changes the first entry for an address, and starts the limiters over.
pub fn update_ip(gate: &mut Gate, ip: Option<IpAddr>, body: AddIpRequest) -> (r: Result<
    (),
    AdminError,
>)
    requires
        old(gate).wf(),
        forall|i: int|
            ip is Some && #[trigger] is_first_entry(
                old(gate).rate_limiter.config.whitelist@,
                ip->0,
                i,
            ) ==> {
                let w = changed(old(gate).rate_limiter.config.whitelist@[i], body);
                request_adds_up(
                    w.rps,
                    w.burst_rps,
                    w.tps,
                    w.burst_tps,
                    old(gate).rate_limiter.config.rate_limits,
                )
            },
    ensures
        final(gate).wf(),
        old(gate).agrees() ==> final(gate).agrees(),
        final(gate).stats == old(gate).stats,
        final(gate).api_keys == old(gate).api_keys,
        final(gate).whitelist == old(gate).whitelist,
        is_updated(*old(gate), *final(gate), ip, body, r),
{
    let ip = match ip {
        Some(ip) => ip,
        None => {
            return Err(AdminError::BadRequest);
        },
    };
    let at: usize = match find_entry(&gate.rate_limiter.config.whitelist, &ip) {
        Some(i) => i,
        None => {
            return Err(AdminError::NotFound);
        },
    };
    let ghost before = gate.rate_limiter.config;
    let w = &gate.rate_limiter.config.whitelist[at];
    let entry = WhitelistEntry {
        ip: w.ip,
        label: if body.label.as_str().unicode_len() > 0 {
            body.label
        } else {
            w.label.clone()
        },
        rps: if body.rps.is_some() {
            body.rps
        } else {
            w.rps
        },
        tps: if body.tps.is_some() {
            body.tps
        } else {
            w.tps
        },
        burst_rps: if body.burst_rps.is_some() {
            body.burst_rps
        } else {
            w.burst_rps
        },
        burst_tps: if body.burst_tps.is_some() {
            body.burst_tps
        } else {
            w.burst_tps
        },
    };
    gate.rate_limiter.config.whitelist.set(at, entry);
    proof {
        let after = gate.rate_limiter.config;
        assert(is_first_entry(before.whitelist@, ip, at as int));
        assert(after.whitelist@ == before.whitelist@.update(at as int, entry));
        assert(ips_of(after.whitelist@) =~= ips_of(before.whitelist@));
        assert forall|i: int| 0 <= i < after.whitelist@.len() implies {
            let w = #[trigger] after.whitelist@[i];
            let d = after.rate_limits;
            &&& config::adds_up(w.rps, w.burst_rps, d.default_rps, d.default_burst_rps)
            &&& config::adds_up(w.tps, w.burst_tps, d.default_tps, d.default_burst_tps)
        } by {
            if i != at {
                assert(after.whitelist@[i] == before.whitelist@[i]);
            }
        }
        assert(after.limits_in_range());
    }
    gate.rate_limiter.rebuild();
    Ok(())
}

/// Takes an address off the whitelist, with all of its entries, and starts the limiters over.
pub fn remove_ip(gate: &mut Gate, ip: Option<IpAddr>) -> (r: Result<IpAddr, AdminError>)
    requires
        old(gate).wf(),
    ensures
        final(gate).wf(),
        old(gate).agrees() ==> final(gate).agrees(),
        final(gate).stats == old(gate).stats,
        final(gate).api_keys == old(gate).api_keys,
        is_removed(*old(gate), *final(gate), ip, r),
{
    let ip = match ip {
        Some(ip) => ip,
        None => {
            return Err(AdminError::BadRequest);
        },
    };
    gate.whitelist.remove_ip(&ip);
    let ghost before = gate.rate_limiter.config;
    let ghost keep = |w: WhitelistEntry| w.ip != ip;
    let ghost parts = (gate.whitelist, gate.api_keys, gate.stats);
    let mut i: usize = 0;
    assert(gate.rate_limiter.config.whitelist@.take(0) =~= Seq::<WhitelistEntry>::empty());
    assert(gate.rate_limiter.config.whitelist@.skip(0) =~= before.whitelist@);
    assert(Seq::<WhitelistEntry>::empty() + before.whitelist@.filter(keep)
        =~= before.whitelist@.filter(keep));
    while i < gate.rate_limiter.config.whitelist.len()
        invariant
            i <= gate.rate_limiter.config.whitelist@.len(),
            keep == (|w: WhitelistEntry| w.ip != ip),
            parts == (gate.whitelist, gate.api_keys, gate.stats),
            gate.rate_limiter.config.limits_in_range(),
            same_but_whitelist(gate.rate_limiter.config, before),
            gate.rate_limiter.config.whitelist@.take(i as int)
                + gate.rate_limiter.config.whitelist@.skip(i as int).filter(keep)
                == before.whitelist@.filter(keep),
        decreases gate.rate_limiter.config.whitelist@.len() - i,
    {
        let ghost now = gate.rate_limiter.config.whitelist@;
        let ghost x = now[i as int];
        proof {
            let rest = now.skip(i + 1);
            assert(now.skip(i as int) =~= seq![x] + rest);
            Seq::filter_distributes_over_add(seq![x], rest, keep);
            reveal(Seq::filter);
            Seq::<WhitelistEntry>::empty().lemma_filter_len(keep);
            assert(seq![x].drop_last() =~= Seq::<WhitelistEntry>::empty());
            assert(seq![x].last() == x);
            assert(seq![x].filter(keep) =~= if keep(x) {
                seq![x]
            } else {
                Seq::<WhitelistEntry>::empty()
            });
        }
        if gate.rate_limiter.config.whitelist[i].ip == ip {
            gate.rate_limiter.config.whitelist.remove(i);
            proof {
                let after = gate.rate_limiter.config.whitelist@;
                assert(after.take(i as int) =~= now.take(i as int));
                assert(after.skip(i as int) =~= now.skip(i + 1));
                assert(now.skip(i as int).filter(keep) =~= now.skip(i + 1).filter(keep));
                assert forall|k: int| 0 <= k < after.len() implies #[trigger] after[k] == (if k < i {
                    now[k]
                } else {
                    now[k + 1]
                }) by {}
                assert(gate.rate_limiter.config.limits_in_range());
            }
        } else {
            proof {
                assert(now.take(i + 1) =~= now.take(i as int) + seq![x]);
                assert(now.take(i + 1) + now.skip(i + 1).filter(keep) =~= now.take(i as int)
                    + now.skip(i as int).filter(keep));
            }
            i = i + 1;
        }
    }
    proof {
        let after = gate.rate_limiter.config.whitelist@;
        assert(after.skip(i as int) =~= Seq::<WhitelistEntry>::empty());
        reveal(Seq::filter);
        assert(after.take(i as int) + after.skip(i as int).filter(keep) =~= after);
        lemma_ips_filter(before.whitelist@, ip);
    }
    gate.rate_limiter.rebuild();
    Ok(ip)
}

/// The nodes and how they fare.
pub fn list_nodes(nodes: &Vec<NodeEntry>, now_ms: u64) -> (r: Vec<NodeHealthEntry>)
    ensures
        shows_nodes(r@, nodes@, now_ms),
{
    let mut out: Vec<NodeHealthEntry> = Vec::new();
    let mut i: usize = 0;
    while i < nodes.len()
        invariant
            i <= nodes@.len(),
            out@.len() == i,
            forall|j: int| 0 <= j < i ==> shows_node(#[trigger] out@[j], nodes@[j], now_ms),
        decreases nodes@.len() - i,
    {
        let n = &nodes[i];
        out.push(
            NodeHealthEntry {
                id: n.config.id.clone(),
                label: n.config.label.clone(),
                region: n.config.region.clone(),
                status: n.health.get_status().as_str(),
                latency_ms: n.health.latency_ms,
                last_slot: n.health.last_slot,
                total_checks: n.health.total_checks,
                total_successes: n.health.total_successes,
                iris_healthy: n.health.iris_healthy,
                iris_configured: n.config.iris_url.is_some(),
                wins: n.health.wins,
                dupes: n.health.dupes,
                last_msg_age_secs: last_msg_age_secs(&n.health, now_ms),
            },
        );
        i = i + 1;
    }
    out
}

/// Whether a key can be shown in part.
pub fn can_mask(key: &str) -> (r: bool)
    ensures
        r == maskable(key@),
{
    let b = key.as_bytes();
    if b.len() <= 12 {
        return true;
    }
    let n: usize = b.len();
    proof {
        vstd::utf8::encode_utf8_valid_utf8(key@);
        vstd::utf8::is_char_boundary_iff_not_is_continuation_byte(b@, 8);
        vstd::utf8::is_char_boundary_iff_not_is_continuation_byte(b@, n - 4);
    }
    (b[8] < 0x80 || b[8] > 0xbf) && (b[n - 4] < 0x80 || b[n - 4] > 0xbf)
}

/// The key as it is shown.
pub fn mask_key(key: &str) -> (r: String)
    requires
        maskable(key@),
    ensures
        r@ == masked(key@),
{
    let n: usize = key.as_bytes().len();
    if n > 12 {
        let head = key.split_at(8).0;
        let tail = key.split_at(n - 4).1;
        proof {
            vstd::utf8::encode_utf8_decode_utf8(head@);
            vstd::utf8::encode_utf8_decode_utf8(tail@);
        }
        let mut out = text::concat(head, "...");
        out.append(tail);
        out
    } else {
        key.to_string()
    }
}

/// `e` shows a key.
pub open spec fn shows_key(e: ApiKeyResponse, key: Seq<char>, data: ApiKeyData) -> bool {
    &&& e.key_prefix@ == masked(key)
    &&& e.label == data.label
    &&& e.rps == data.rps
    &&& e.tps == data.tps
    &&& e.created_at == data.created_at
}

/// The keys in use, each shown in part, in the order of the list of all keys.
pub fn list_api_keys(keys: &Vec<(String, ApiKeyData)>) -> (r: Vec<ApiKeyResponse>)
    requires
        forall|i: int| 0 <= i < keys@.len() ==> maskable((#[trigger] keys@[i]).0@),
    ensures
        shows_keys(r@, keys@),
{
    let mut out: Vec<ApiKeyResponse> = Vec::new();
    let mut i: usize = 0;
    while i < keys.len()
        invariant
            i <= keys@.len(),
            forall|j: int| 0 <= j < keys@.len() ==> maskable((#[trigger] keys@[j]).0@),
            out@.len() == i,
            forall|j: int| 0 <= j < i ==> shows_key(#[trigger] out@[j], keys@[j].0@, keys@[j].1),
        decreases keys@.len() - i,
    {
        let data = &keys[i].1;
        out.push(
            ApiKeyResponse {
                key_prefix: mask_key(keys[i].0.as_str()),
                label: data.label.clone(),
                rps: data.rps,
                tps: data.tps,
                created_at: data.created_at.clone(),
            },
        );
        i = i + 1;
    }
    out
}

/// The configuration's entry for a new key.
pub open spec fn is_new_key(e: ApiKeyEntry, key: Seq<char>, body: CreateKeyRequest, at: Seq<char>) -> bool {
    &&& e.key@ == key
    &&& e.label == body.label
    &&& e.rps == body.rps
    &&& e.tps == body.tps
    &&& e.burst_rps == body.burst_rps
    &&& e.burst_tps == body.burst_tps
    &&& e.created_at@ == at
    &&& !e.revoked
}

/// Puts a key in use, with an entry in the configuration, and starts the limiters over.
pub fn create_with_key(gate: &mut Gate, key: String, body: CreateKeyRequest, created_at: String)
    requires
        old(gate).wf(),
        request_adds_up(
            body.rps,
            body.burst_rps,
            body.tps,
            body.burst_tps,
            old(gate).rate_limiter.config.rate_limits,
        ),
    ensures
        final(gate).wf(),
        old(gate).agrees() ==> final(gate).agrees(),
        final(gate).stats == old(gate).stats,
        final(gate).whitelist == old(gate).whitelist,
        is_created(*old(gate), *final(gate), key@, body, created_at@),
{
    let ghost before = gate.rate_limiter.config;
    gate.api_keys.add_key(
        key.clone(),
        ApiKeyData {
            label: body.label.clone(),
            rps: body.rps,
            tps: body.tps,
            burst_rps: body.burst_rps,
            burst_tps: body.burst_tps,
            created_at: created_at.clone(),
        },
    );
    gate.rate_limiter.config.api_keys.push(
        ApiKeyEntry {
            key,
            label: body.label,
            rps: body.rps,
            tps: body.tps,
            burst_rps: body.burst_rps,
            burst_tps: body.burst_tps,
            created_at,
            revoked: false,
        },
    );
    proof {
        let after = gate.rate_limiter.config;
        assert(after.api_keys@.drop_last() =~= before.api_keys@);
        assert forall|i: int|
            0 <= i < after.api_keys@.len() && !(#[trigger] after.api_keys@[i]).revoked implies {
            let k = after.api_keys@[i];
            let d = after.rate_limits;
            &&& config::adds_up(k.rps, k.burst_rps, d.default_rps, d.default_burst_rps)
            &&& config::adds_up(k.tps, k.burst_tps, d.default_tps, d.default_burst_tps)
        } by {
            if i < before.api_keys@.len() {
                assert(after.api_keys@[i] == before.api_keys@[i]);
            }
        }
        assert(after.limits_in_range());
    }
    gate.rate_limiter.rebuild();
}

/// Puts a new random key in use, and returns it.
pub fn create_api_key(gate: &mut Gate, body: CreateKeyRequest, created_at: String) -> (key: String)
    requires
        old(gate).wf(),
        request_adds_up(
            body.rps,
            body.burst_rps,
            body.tps,
            body.burst_tps,
            old(gate).rate_limiter.config.rate_limits,
        ),
    ensures
        final(gate).wf(),
        old(gate).agrees() ==> final(gate).agrees(),
        final(gate).stats == old(gate).stats,
        final(gate).whitelist == old(gate).whitelist,
        api_keys::is_drawn(key@),
        is_created(*old(gate), *final(gate), key@, body, created_at@),
{
    let key = api_keys::generate_api_key();
    create_with_key(gate, key.clone(), body, created_at);
    key
}

/// The keys of the configuration with the first entry for one of them revoked.
pub open spec fn with_revoked(entries: Seq<ApiKeyEntry>, key: Seq<char>) -> Seq<ApiKeyEntry>
    decreases entries.len(),
{
    if entries.len() == 0 {
        entries
    } else if entries[0].key@ == key {
        entries.update(0, ApiKeyEntry { revoked: true, ..entries[0] })
    } else {
        seq![entries[0]] + with_revoked(entries.drop_first(), key)
    }
}

proof fn lemma_with_revoked(entries: Seq<ApiKeyEntry>, key: Seq<char>, n: int)
    requires
        0 <= n <= entries.len(),
        forall|j: int| 0 <= j < n ==> (#[trigger] entries[j]).key@ != key,
        n < entries.len() ==> entries[n].key@ == key,
    ensures
        with_revoked(entries, key) == if n < entries.len() {
            entries.update(n, ApiKeyEntry { revoked: true, ..entries[n] })
        } else {
            entries
        },
    decreases n,
{
    if n > 0 {
        let rest = entries.drop_first();
        assert forall|j: int| 0 <= j < n - 1 implies (#[trigger] rest[j]).key@ != key by {
            assert(rest[j] == entries[j + 1]);
        }
        lemma_with_revoked(rest, key, n - 1);
        assert(with_revoked(entries, key) =~= if n < entries.len() {
            entries.update(n, ApiKeyEntry { revoked: true, ..entries[n] })
        } else {
            entries
        });
    }
}

fn find_key_entry(entries: &Vec<ApiKeyEntry>, key: &str) -> (i: usize)
    ensures
        i <= entries@.len(),
        forall|j: int| 0 <= j < i ==> (#[trigger] entries@[j]).key@ != key@,
        i < entries@.len() ==> entries@[i as int].key@ == key@,
{
    let mut i: usize = 0;
    while i < entries.len()
        invariant
            i <= entries@.len(),
            forall|j: int| 0 <= j < i ==> (#[trigger] entries@[j]).key@ != key@,
        decreases entries@.len() - i,
    {
        if text::str_eq(entries[i].key.as_str(), key) {
            return i;
        }
        i = i + 1;
    }
    i
}

/// Takes a key out of use that is meant by what a user typed, marks its entry as revoked, and
/// starts the limiters over. Where several keys are meant, one of them is taken.
pub fn revoke_api_key(gate: &mut Gate, typed: &str) -> (r: Result<(), AdminError>)
    requires
        old(gate).wf(),
        can_be_looked_for(old(gate).api_keys@, typed@),
    ensures
        final(gate).wf(),
        old(gate).agrees() && distinct_keys(old(gate).rate_limiter.config.api_keys@) ==>
            final(gate).agrees(),
        final(gate).stats == old(gate).stats,
        final(gate).whitelist == old(gate).whitelist,
        is_revoked(*old(gate), *final(gate), typed@, r),
{
    let keys = gate.api_keys.list_keys();
    let ghost listed = names::NameMap { entries: keys };
    let mut i: usize = 0;
    while i < keys.len()
        invariant
            i <= keys@.len(),
            listed.entries == keys,
            listed.wf(),
            listed@ == gate.api_keys@,
            can_be_looked_for(gate.api_keys@, typed@),
            *gate == *old(gate),
            gate.wf(),
            forall|j: int| 0 <= j < i ==> !is_meant((#[trigger] keys@[j]).0@, typed@),
        decreases keys@.len() - i,
    {
        let key = keys[i].0.as_str();
        proof {
            listed.lemma_entry(i as int);
        }
        let meant = if text::begins_with(key, typed) {
            true
        } else {
            let shown = mask_key(key);
            text::str_eq(shown.as_str(), typed)
        };
        if meant {
            let ghost before = gate.rate_limiter.config;
            gate.api_keys.revoke_key(key);
            let at: usize = find_key_entry(&gate.rate_limiter.config.api_keys, key);
            proof {
                lemma_with_revoked(before.api_keys@, key@, at as int);
            }
            if at < gate.rate_limiter.config.api_keys.len() {
                gate.rate_limiter.config.api_keys[at].revoked = true;
            }
            proof {
                let after = gate.rate_limiter.config;
                assert(after.api_keys@ =~= with_revoked(before.api_keys@, key@));
                assert forall|k: int|
                    0 <= k < after.api_keys@.len() && !(#[trigger] after.api_keys@[k]).revoked implies {
                    let e = after.api_keys@[k];
                    let d = after.rate_limits;
                    &&& config::adds_up(e.rps, e.burst_rps, d.default_rps, d.default_burst_rps)
                    &&& config::adds_up(e.tps, e.burst_tps, d.default_tps, d.default_burst_tps)
                } by {
                    assert(after.api_keys@[k] == before.api_keys@[k]);
                }
                assert(after.limits_in_range());
            }
            gate.rate_limiter.rebuild();
            assert(old(gate).api_keys@.contains_key(key@));
            proof {
                if distinct_keys(before.api_keys@) {
                    law_revoking_matches_restart(before.api_keys@, key@);
                }
            }
            return Ok(());
        }
        i = i + 1;
    }
    assert forall|key: Seq<char>| #[trigger] old(gate).api_keys@.contains_key(key) implies !is_meant(
        key,
        typed@,
    ) by {
        let p = listed.lemma_position(key);
        assert(keys@[p].0@ == key);
    }
    Err(AdminError::NotFound)
}

/// How many keys of the configuration are not revoked.
pub fn count_active_keys(entries: &Vec<ApiKeyEntry>) -> (r: usize)
    ensures
        r == active_keys(entries@),
{
    let mut n: usize = 0;
    let mut i: usize = 0;
    assert(entries@.take(0) =~= Seq::<ApiKeyEntry>::empty());
    while i < entries.len()
        invariant
            i <= entries@.len(),
            n <= i,
            n == active_keys(entries@.take(i as int)),
        decreases entries@.len() - i,
    {
        assert(entries@.take(i + 1).drop_last() =~= entries@.take(i as int));
        if !entries[i].revoked {
            n = n + 1;
        }
        i = i + 1;
    }
    assert(entries@.take(i as int) =~= entries@);
    n
}

/// The proxy's own health.
pub fn health_check(config: &Config, nodes: &Vec<NodeEntry>, uptime_secs: u64) -> (r: HealthReport)
    ensures
        is_report(*config, nodes@, uptime_secs, r),
{
    let mut out: Vec<NodeBrief> = Vec::new();
    let mut i: usize = 0;
    while i < nodes.len()
        invariant
            i <= nodes@.len(),
            out@.len() == i,
            forall|j: int|
                0 <= j < i ==> (#[trigger] out@[j]).id == nodes@[j].config.id && out@[j].status@
                    == status_name(nodes@[j].health.status) && out@[j].latency_ms
                    == nodes@[j].health.latency_ms,
        decreases nodes@.len() - i,
    {
        let n = &nodes[i];
        out.push(
            NodeBrief {
                id: n.config.id.clone(),
                status: n.health.get_status().as_str(),
                latency_ms: n.health.latency_ms,
            },
        );
        i = i + 1;
    }
    HealthReport {
        uptime_secs,
        nodes: out,
        whitelisted_ips: config.whitelist.len(),
        api_keys: count_active_keys(&config.api_keys),
    }
}

/// What a dashboard that is open is sent.
pub fn ws_stats(gate: &Gate, nodes: &Vec<NodeEntry>, uptime_secs: u64, now_ms: u64) -> (
    r: WsStatsMessage)
    requires
        gate.wf(),
    ensures
        is_message(*gate, nodes@, uptime_secs, now_ms, r),
{
    WsStatsMessage {
        global: gate.stats.global_snapshot(uptime_secs),
        per_ip: gate.stats.snapshots(),
        ips: list_ips(&gate.rate_limiter.config),
        nodes: list_nodes(nodes, now_ms),
        api_keys_count: count_active_keys(&gate.rate_limiter.config.api_keys),
    }
}

/// What cannot be read is a bad request, and what is not there is not found.
pub proof fn law_refusals_have_their_codes(e: AdminError)
    ensures
        e.code() == 400 <==> e == AdminError::BadRequest,
        e.code() == 404 <==> e == AdminError::NotFound,
{
}

/// An address is shown under its own label, with each of its limits, and with the default for each that
/// it leaves open.
pub proof fn law_address_is_shown_with_its_limits(list: Seq<IpEntry>, c: Config, i: int)
    requires
        shows_whitelist(list, c),
        0 <= i < c.whitelist@.len(),
    ensures
        ({
            let e = list[i];
            let w = c.whitelist@[i];
            let d = c.rate_limits;
            &&& list.len() == c.whitelist@.len()
            &&& e.ip == w.ip
            &&& e.label == w.label
            &&& e.rps == if w.rps is Some { w.rps->0 } else { d.default_rps }
            &&& e.tps == if w.tps is Some { w.tps->0 } else { d.default_tps }
            &&& e.burst_rps == if w.burst_rps is Some { w.burst_rps->0 } else { d.default_burst_rps }
            &&& e.burst_tps == if w.burst_tps is Some { w.burst_tps->0 } else { d.default_burst_tps }
        }),
{
}

/// A node is shown as it is known, under its own name; how long ago its region was heard of is given in
/// whole seconds, and as the highest number where it never was.
pub proof fn law_node_is_shown_as_it_is(
    list: Seq<NodeHealthEntry>,
    nodes: Seq<NodeEntry>,
    now_ms: u64,
    i: int,
)
    requires
        shows_nodes(list, nodes, now_ms),
        0 <= i < nodes.len(),
    ensures
        ({
            let e = list[i];
            let n = nodes[i];
            &&& list.len() == nodes.len()
            &&& e.id == n.config.id
            &&& e.label == n.config.label
            &&& e.region == n.config.region
            &&& n.health.status == 0 ==> e.status@ == "healthy"@
            &&& n.health.status == 1 ==> e.status@ == "degraded"@
            &&& n.health.status >= 2 ==> e.status@ == "down"@
            &&& e.latency_ms == n.health.latency_ms
            &&& e.last_slot == n.health.last_slot
            &&& e.total_checks == n.health.total_checks
            &&& e.total_successes == n.health.total_successes
            &&& e.iris_healthy == n.health.iris_healthy
            &&& e.iris_configured <==> n.config.iris_url is Some
            &&& e.wins == n.health.wins
            &&& e.dupes == n.health.dupes
            &&& n.health.last_msg_ms == 0 ==> e.last_msg_age_secs == u64::MAX
            &&& 0 < n.health.last_msg_ms <= now_ms ==> e.last_msg_age_secs * 1000 <= now_ms
                - n.health.last_msg_ms < e.last_msg_age_secs * 1000 + 1000
            &&& n.health.last_msg_ms > now_ms ==> e.last_msg_age_secs == 0
        }),
{
}

/// The report and what a dashboard is sent show the same counters and nodes: the totals in all, every
/// client, the whitelist, the nodes, and how many keys are not revoked.
pub proof fn law_dashboard_shows_what_is(
    gate: Gate,
    nodes: Seq<NodeEntry>,
    uptime_secs: u64,
    now_ms: u64,
    m: WsStatsMessage,
    r: HealthReport,
    s: StatsResponse,
    i: int,
)
    requires
        is_message(gate, nodes, uptime_secs, now_ms, m),
        is_report(gate.rate_limiter.config, nodes, uptime_secs, r),
        shows_stats(gate.stats, uptime_secs, s),
        0 <= i < nodes.len(),
    ensures
        m.global.total_requests == s.global.total_requests == gate.stats.global_total_requests,
        m.global.global_rps == s.global.global_rps == gate.stats.global_rps_current,
        m.global.global_tps == s.global.global_tps == gate.stats.global_tps_current,
        m.global.uptime_secs == s.global.uptime_secs == r.uptime_secs == uptime_secs,
        m.global.connected_ips == gate.stats.by_ip().dom().len(),
        stats::shows(m.per_ip@, gate.stats.by_ip()),
        stats::shows(s.per_ip@, gate.stats.by_ip()),
        m.ips@.len() == r.whitelisted_ips == gate.rate_limiter.config.whitelist@.len(),
        m.api_keys_count == r.api_keys == active_keys(gate.rate_limiter.config.api_keys@),
        m.nodes@.len() == r.nodes@.len() == nodes.len(),
        r.nodes@[i].id == nodes[i].config.id,
        m.nodes@[i].id == nodes[i].config.id,
        r.nodes@[i].status@ == m.nodes@[i].status@,
        r.nodes@[i].latency_ms == m.nodes@[i].latency_ms == nodes[i].health.latency_ms,
        shows_whitelist(m.ips@, gate.rate_limiter.config),
        shows_nodes(m.nodes@, nodes, now_ms),
{
}

/// A key counts as active exactly where it is not revoked.
pub proof fn law_revoked_keys_do_not_count(entries: Seq<ApiKeyEntry>, e: ApiKeyEntry)
    ensures
        active_keys(Seq::empty()) == 0,
        e.revoked ==> active_keys(entries.push(e)) == active_keys(entries),
        !e.revoked ==> active_keys(entries.push(e)) == active_keys(entries) + 1,
{
    assert(entries.push(e).drop_last() =~= entries);
}

/// Of a key of more than twelve bytes the first eight and the last four are shown, with three dots
/// between them; a shorter one is shown whole. What else is known of it is shown as it is.
pub proof fn law_key_is_shown_in_part(
    list: Seq<ApiKeyResponse>,
    keys: Seq<(String, ApiKeyData)>,
    i: int,
)
    requires
        shows_keys(list, keys),
        0 <= i < keys.len(),
        maskable(keys[i].0@),
    ensures
        ({
            let b = vstd::utf8::encode_utf8(keys[i].0@);
            let shown = vstd::utf8::encode_utf8(list[i].key_prefix@);
            &&& list.len() == keys.len()
            &&& b.len() <= 12 ==> list[i].key_prefix@ == keys[i].0@
            &&& b.len() > 12 ==> shown == b.take(8) + vstd::utf8::encode_utf8("..."@) + b.skip(
                b.len() - 4,
            )
            &&& list[i].label == keys[i].1.label
            &&& list[i].rps == keys[i].1.rps
            &&& list[i].tps == keys[i].1.tps
            &&& list[i].created_at == keys[i].1.created_at
        }),
{
    let key = keys[i].0@;
    let b = vstd::utf8::encode_utf8(key);
    if b.len() > 12 {
        vstd::utf8::encode_utf8_valid_utf8(key);
        vstd::utf8::valid_utf8_split(b, 8);
        vstd::utf8::valid_utf8_split(b, b.len() - 4);
        let head = b.subrange(0, 8);
        let tail = b.subrange(b.len() - 4, b.len() as int);
        vstd::utf8::decode_utf8_encode_utf8(head);
        vstd::utf8::decode_utf8_encode_utf8(tail);
        let h = vstd::utf8::decode_utf8(head);
        let t = vstd::utf8::decode_utf8(tail);
        text::lemma_encode_concat(h, "..."@);
        text::lemma_encode_concat(h + "..."@, t);
        assert(head =~= b.take(8));
        assert(tail =~= b.skip(b.len() - 4));
    }
}

/// A key of plain characters can always be shown.
pub proof fn law_plain_key_can_be_shown(key: Seq<char>)
    requires
        vstd::utf8::is_ascii_chars(key),
    ensures
        maskable(key),
{
    let b = vstd::utf8::encode_utf8(key);
    if b.len() > 12 {
        vstd::utf8::encode_utf8_valid_utf8(key);
        vstd::utf8::is_ascii_chars_encode_utf8(key);
        vstd::utf8::is_char_boundary_iff_not_is_continuation_byte(b, 8);
        vstd::utf8::is_char_boundary_iff_not_is_continuation_byte(b, b.len() - 4);
    }
}

/// A key is meant by itself, by any beginning of it, and by the way it is shown.
pub proof fn law_key_is_meant_by_its_beginning(key: Seq<char>, n: int, typed: Seq<char>)
    requires
        0 <= n <= key.len(),
    ensures
        is_meant(key, key),
        is_meant(key, key.take(n)),
        is_meant(key, masked(key)),
        is_meant(key, typed) ==> typed == masked(key) || (typed.len() <= key.len() && typed
            == key.take(typed.len() as int)),
{
    if typed.is_prefix_of(key) {
        assert(typed =~= key.take(typed.len() as int));
    }
}

/// An address that is added is on the whitelist, and nobody else's place on it changes. Its entry says
/// what was asked for and stands behind the others, which stay; the limiters start over, set up by the
/// entries.
pub proof fn law_added_address_may_pass(
    before: Gate,
    after: Gate,
    body: AddIpRequest,
    r: Result<IpAddr, AdminError>,
    other: IpAddr,
)
    requires
        is_added(before, after, body, r),
    ensures
        r is Ok <==> body.ip is Some,
        r is Err ==> r->Err_0.code() == 400 && after == before,
        r is Ok ==> {
            let was = before.rate_limiter.config;
            let now = after.rate_limiter.config;
            let n = was.whitelist@.len() as int;
            let e = now.whitelist@[n];
            &&& r->Ok_0 == body.ip->0
            &&& after.whitelist@.contains(body.ip->0)
            &&& other != body.ip->0 ==> (after.whitelist@.contains(other)
                <==> before.whitelist@.contains(other))
            &&& now.whitelist@.len() == n + 1
            &&& forall|j: int| 0 <= j < n ==> #[trigger] now.whitelist@[j] == was.whitelist@[j]
            &&& e.ip == body.ip->0
            &&& e.label == body.label
            &&& e.rps == body.rps && e.tps == body.tps
            &&& e.burst_rps == body.burst_rps && e.burst_tps == body.burst_tps
            &&& now.api_keys == was.api_keys
            &&& now.rate_limits == was.rate_limits
            &&& now.nodes == was.nodes
            &&& after.rate_limiter.by_ip() == rate_limiter::whitelist_limits(
                now.whitelist@,
                now.rate_limits,
            )
            &&& after.rate_limiter.by_key() == rate_limiter::keys_limits(
                now.api_keys@,
                now.rate_limits,
            )
            &&& after.rate_limiter.unasked()
        },
{
    if r is Ok {
        let was = before.rate_limiter.config.whitelist@;
        let now = after.rate_limiter.config.whitelist@;
        assert forall|j: int| 0 <= j < was.len() implies #[trigger] now[j] == was[j] by {
            assert(now.drop_last()[j] == now[j]);
        }
    }
}

/// Where only the whitelist, or only the keys, may differ, nothing else does.
pub proof fn law_nothing_else_differs(a: Config, b: Config)
    ensures
        same_but_whitelist(a, b) <==> a == (Config { whitelist: a.whitelist, ..b }),
        same_but_keys(a, b) <==> a == (Config { api_keys: a.api_keys, ..b }),
{
}

/// What is asked for adds up where both rates do with their bursts, each its own or the default.
pub proof fn law_request_adds_up_on_both_counts(
    rps: Option<u32>,
    burst_rps: Option<u32>,
    tps: Option<u32>,
    burst_tps: Option<u32>,
    d: RateLimitConfig,
)
    ensures
        request_adds_up(rps, burst_rps, tps, burst_tps, d) <==> {
            let r = if rps is Some { rps->0 } else { d.default_rps };
            let br = if burst_rps is Some { burst_rps->0 } else { d.default_burst_rps };
            let t = if tps is Some { tps->0 } else { d.default_tps };
            let bt = if burst_tps is Some { burst_tps->0 } else { d.default_burst_tps };
            r + br <= 4294967295 && t + bt <= 4294967295
        },
{
}

/// A change replaces the label where one is given, and each limit that is given, in the first entry for
/// the address; all else stays, in this entry and in every other.
pub proof fn law_change_replaces_what_is_given(
    before: Gate,
    after: Gate,
    ip: Option<IpAddr>,
    body: AddIpRequest,
    r: Result<(), AdminError>,
    i: int,
    j: int,
)
    requires
        is_updated(before, after, ip, body, r),
        ip is Some,
        0 <= i < before.rate_limiter.config.whitelist@.len(),
        before.rate_limiter.config.whitelist@[i].ip == ip->0,
        forall|k: int|
            0 <= k < i ==> (#[trigger] before.rate_limiter.config.whitelist@[k]).ip != ip->0,
        0 <= j < before.rate_limiter.config.whitelist@.len(),
        j != i,
    ensures
        r is Ok,
        ({
            let was = before.rate_limiter.config.whitelist@;
            let now = after.rate_limiter.config.whitelist@;
            &&& now.len() == was.len()
            &&& now[j] == was[j]
            &&& now[i].ip == was[i].ip
            &&& now[i].label == if body.label@.len() > 0 { body.label } else { was[i].label }
            &&& now[i].rps == if body.rps is Some { body.rps } else { was[i].rps }
            &&& now[i].tps == if body.tps is Some { body.tps } else { was[i].tps }
            &&& now[i].burst_rps == if body.burst_rps is Some {
                body.burst_rps
            } else {
                was[i].burst_rps
            }
            &&& now[i].burst_tps == if body.burst_tps is Some {
                body.burst_tps
            } else {
                was[i].burst_tps
            }
        }),
        after.rate_limiter.unasked(),
        after.rate_limiter.by_ip() == rate_limiter::whitelist_limits(
            after.rate_limiter.config.whitelist@,
            after.rate_limiter.config.rate_limits,
        ),
        after.rate_limiter.config.rate_limits == before.rate_limiter.config.rate_limits,
        after.rate_limiter.config.api_keys == before.rate_limiter.config.api_keys,
{
    let was = before.rate_limiter.config.whitelist@;
    let now = after.rate_limiter.config.whitelist@;
    assert(was[i].ip == ip->0);
    let k = choose|k: int| #[trigger]
        is_first_entry(was, ip->0, k) && now == was.update(k, changed(was[k], body));
    assert(k == i) by {
        if k < i {
            assert(was[k].ip != ip->0);
        }
        if i < k {
            assert(was[i].ip != ip->0);
        }
    }
}

/// A change of an address without an entry is not found, one of what is no address is a bad request, and
/// neither changes anything.
pub proof fn law_nothing_to_change(
    before: Gate,
    after: Gate,
    ip: Option<IpAddr>,
    body: AddIpRequest,
    r: Result<(), AdminError>,
)
    requires
        is_updated(before, after, ip, body, r),
        ip is None || forall|k: int|
            0 <= k < before.rate_limiter.config.whitelist@.len()
                ==> (#[trigger] before.rate_limiter.config.whitelist@[k]).ip != ip->0,
    ensures
        r is Err,
        r->Err_0.code() == if ip is None { 400u16 } else { 404 },
        after == before,
{
}

/// An address that is removed is off the whitelist and has no entry any more; every other address and
/// every other entry stays. What is no address is a bad request and changes nothing.
pub proof fn law_removed_address_is_gone(
    before: Gate,
    after: Gate,
    ip: Option<IpAddr>,
    r: Result<IpAddr, AdminError>,
    other: IpAddr,
    w: WhitelistEntry,
)
    requires
        is_removed(before, after, ip, r),
    ensures
        r is Ok <==> ip is Some,
        r is Err ==> r->Err_0.code() == 400 && after == before,
        r is Ok ==> {
            let was = before.rate_limiter.config;
            let now = after.rate_limiter.config;
            &&& r->Ok_0 == ip->0
            &&& !after.whitelist@.contains(ip->0)
            &&& other != ip->0 ==> (after.whitelist@.contains(other)
                <==> before.whitelist@.contains(other))
            &&& now.whitelist@.contains(w) <==> was.whitelist@.contains(w) && w.ip != ip->0
            &&& now.api_keys == was.api_keys
            &&& now.rate_limits == was.rate_limits
            &&& after.rate_limiter.by_ip() == rate_limiter::whitelist_limits(
                now.whitelist@,
                now.rate_limits,
            )
            &&& after.rate_limiter.unasked()
        },
{
    if r is Ok {
        let was = before.rate_limiter.config.whitelist@;
        let keep = |v: WhitelistEntry| v.ip != r->Ok_0;
        assert(after.rate_limiter.config.whitelist@ == was.filter(keep));
        broadcast use vstd::seq_lib::group_filter_ensures;
        if was.filter(keep).contains(w) {
            was.lemma_filter_contains_rev(keep, w);
            let k = was.filter(keep).index_of(w);
            assert(keep(was.filter(keep)[k]));
        }
    }
}

/// A key that is created is in use, with what was asked for, and no other key changes. Its entry stands
/// behind the others, which stay, and is not revoked; the limiters start over, set up by the entries.
pub proof fn law_created_key_is_in_use(
    before: Gate,
    after: Gate,
    key: Seq<char>,
    body: CreateKeyRequest,
    created_at: Seq<char>,
    other: Seq<char>,
)
    requires
        is_created(before, after, key, body, created_at),
    ensures
        ({
            let was = before.rate_limiter.config;
            let now = after.rate_limiter.config;
            let n = was.api_keys@.len() as int;
            let e = now.api_keys@[n];
            let data = after.api_keys@[key];
            &&& after.api_keys@.contains_key(key)
            &&& data.label == body.label
            &&& data.rps == body.rps && data.tps == body.tps
            &&& data.burst_rps == body.burst_rps && data.burst_tps == body.burst_tps
            &&& data.created_at@ == created_at
            &&& other != key ==> (after.api_keys@.contains_key(other)
                <==> before.api_keys@.contains_key(other))
            &&& other != key && before.api_keys@.contains_key(other) ==> after.api_keys@[other]
                == before.api_keys@[other]
            &&& now.api_keys@.len() == n + 1
            &&& forall|j: int| 0 <= j < n ==> #[trigger] now.api_keys@[j] == was.api_keys@[j]
            &&& e.key@ == key
            &&& !e.revoked
            &&& e.label == body.label
            &&& e.rps == body.rps && e.tps == body.tps
            &&& e.burst_rps == body.burst_rps && e.burst_tps == body.burst_tps
            &&& e.created_at@ == created_at
            &&& now.whitelist == was.whitelist
            &&& now.rate_limits == was.rate_limits
            &&& after.rate_limiter.by_key() == rate_limiter::keys_limits(
                now.api_keys@,
                now.rate_limits,
            )
            &&& after.rate_limiter.unasked()
        }),
{
    let was = before.rate_limiter.config.api_keys@;
    let now = after.rate_limiter.config.api_keys@;
    assert forall|j: int| 0 <= j < was.len() implies #[trigger] now[j] == was[j] by {
        assert(now.drop_last()[j] == now[j]);
    }
}

/// A key is taken out of use exactly where what was typed means one: one key goes, which it means, and no
/// other; its first entry is marked as revoked and all else in the entries stays. Where none is meant
/// nothing changes.
pub proof fn law_revoked_key_is_one_that_is_meant(
    before: Gate,
    after: Gate,
    typed: Seq<char>,
    r: Result<(), AdminError>,
)
    requires
        is_revoked(before, after, typed, r),
    ensures
        r is Ok <==> exists|key: Seq<char>| #[trigger]
            before.api_keys@.contains_key(key) && is_meant(key, typed),
        r is Err ==> r->Err_0.code() == 404 && after == before,
        r is Ok ==> exists|key: Seq<char>|
            {
                let was = before.rate_limiter.config.api_keys@;
                let now = after.rate_limiter.config.api_keys@;
                &&& #[trigger] before.api_keys@.contains_key(key)
                &&& is_meant(key, typed)
                &&& after.api_keys@ == before.api_keys@.remove(key)
                &&& now.len() == was.len()
                &&& forall|j: int|
                    0 <= j < was.len() && (#[trigger] was[j]).key@ != key ==> now[j] == was[j]
                &&& forall|j: int|
                    0 <= j < was.len() && (#[trigger] was[j]).key@ == key && (forall|k: int|
                        0 <= k < j ==> (#[trigger] was[k]).key@ != key) ==> now[j] == (ApiKeyEntry {
                        revoked: true,
                        ..was[j]
                    })
            },
        r is Ok ==> after.rate_limiter.unasked(),
{
    if r is Ok {
        let was = before.rate_limiter.config.api_keys@;
        let now = after.rate_limiter.config.api_keys@;
        let key = choose|key: Seq<char>|
            {
                &&& #[trigger] before.api_keys@.contains_key(key)
                &&& is_meant(key, typed)
                &&& after.api_keys@ == before.api_keys@.remove(key)
                &&& now == with_revoked(was, key)
                &&& limits_are_fresh(after)
            };
        let n = lemma_first_entry_for(was, key);
        lemma_with_revoked(was, key, n);
        assert forall|j: int|
            0 <= j < was.len() && (#[trigger] was[j]).key@ == key && (forall|k: int|
                0 <= k < j ==> (#[trigger] was[k]).key@ != key) implies now[j] == (ApiKeyEntry {
            revoked: true,
            ..was[j]
        }) by {
            if n < j {
                assert(was[n].key@ != key);
            }
            assert(j == n);
        }
    }
}

proof fn lemma_first_entry_for(entries: Seq<ApiKeyEntry>, key: Seq<char>) -> (n: int)
    ensures
        0 <= n <= entries.len(),
        forall|j: int| 0 <= j < n ==> (#[trigger] entries[j]).key@ != key,
        n < entries.len() ==> entries[n].key@ == key,
    decreases entries.len(),
{
    if entries.len() == 0 {
        0
    } else {
        let rest = entries.drop_last();
        let n = lemma_first_entry_for(rest, key);
        assert forall|j: int| 0 <= j < n implies (#[trigger] entries[j]).key@ != key by {
            assert(rest[j] == entries[j]);
        }
        if n < rest.len() {
            assert(entries[n] == rest[n]);
            n
        } else if entries.last().key@ == key {
            n
        } else {
            entries.len() as int
        }
    }
}

/// With each key in one entry, what is known of a key in use is what its entry says.
proof fn lemma_entry_of_key(entries: Seq<ApiKeyEntry>, i: int)
    requires
        distinct_keys(entries),
        0 <= i < entries.len(),
        !entries[i].revoked,
    ensures
        api_keys::keys_of(entries).contains_key(entries[i].key@),
        api_keys::keys_of(entries)[entries[i].key@] == api_keys::data_of(entries[i]),
    decreases entries.len(),
{
    let rest = entries.drop_last();
    if i < rest.len() {
        assert(rest[i] == entries[i]);
        lemma_entry_of_key(rest, i);
        assert(entries[i].key@ != entries[entries.len() - 1].key@);
    }
}

/// Revoking a key with one entry takes the key, and no other one, out of what a restart would read
/// from the configuration.
pub proof fn law_revoking_matches_restart(entries: Seq<ApiKeyEntry>, key: Seq<char>)
    requires
        distinct_keys(entries),
    ensures
        api_keys::keys_of(with_revoked(entries, key)) == api_keys::keys_of(entries).remove(key),
{
    let after = with_revoked(entries, key);
    let m = api_keys::keys_of(after);
    let before = api_keys::keys_of(entries);
    let n = if exists|n: int| 0 <= n < entries.len() && (#[trigger] entries[n]).key@ == key {
        choose|n: int| 0 <= n < entries.len() && (#[trigger] entries[n]).key@ == key
    } else {
        entries.len() as int
    };
    lemma_with_revoked(entries, key, n);
    assert(after.len() == entries.len());
    assert forall|i: int| 0 <= i < after.len() implies (#[trigger] after[i]).key == entries[i].key
        && (i != n ==> after[i] == entries[i]) && (i == n ==> after[i].revoked) by {}
    assert(distinct_keys(after));
    assert forall|k: Seq<char>| #[trigger] m.contains_key(k) == before.remove(key).contains_key(k)
        && (m.contains_key(k) ==> m[k] == before[k]) by {
        api_keys::law_keys_come_from_entries(after, k);
        api_keys::law_keys_come_from_entries(entries, k);
        if m.contains_key(k) {
            let i = choose|i: int|
                0 <= i < after.len() && (#[trigger] after[i]).key@ == k && !after[i].revoked;
            assert(entries[i] == after[i]);
            lemma_entry_of_key(after, i);
            lemma_entry_of_key(entries, i);
        }
        if before.contains_key(k) && k != key {
            let i = choose|i: int|
                0 <= i < entries.len() && (#[trigger] entries[i]).key@ == k && !entries[i].revoked;
            assert(after[i] == entries[i]);
        }
    }
    assert(m =~= before.remove(key));
}

} // verus!
