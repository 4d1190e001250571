//! What is counted: for each client, in all, and of the supervised streams.

use crate::net;
use crate::net::{IpAddr, IpKey};
use vstd::prelude::*;

verus! {

/// What is counted for one client.
#[derive(Debug, Clone, Copy, PartialEq, Eq, Structural)]
pub struct IpStats {
    pub active_rpc_conns: u64,
    pub active_ws_conns: u64,
    pub active_grpc_streams: u64,
    pub active_arpc_streams: u64,
    pub total_rpc_requests: u64,
    pub total_tx_sends: u64,
    pub total_ws_messages: u64,
    pub total_grpc_requests: u64,
    pub total_arpc_requests: u64,
    pub rate_limited_count: u64,
    pub error_count: u64,
    pub last_seen_epoch_ms: u64,
    // Rolling window counters (reset every second by background task)
    pub rps_current: u64,
    pub tps_current: u64,
}

/// The counters of one client at one moment.
#[derive(Debug, Clone, Copy, PartialEq, Eq, Structural)]
pub struct IpStatsSnapshot {
    pub active_rpc_conns: u64,
    pub active_ws_conns: u64,
    pub active_grpc_streams: u64,
    pub active_arpc_streams: u64,
    pub total_rpc_requests: u64,
    pub total_tx_sends: u64,
    pub total_ws_messages: u64,
    pub total_grpc_requests: u64,
    pub total_arpc_requests: u64,
    pub rate_limited_count: u64,
    pub error_count: u64,
    pub rps_current: u64,
    pub tps_current: u64,
    pub last_seen_epoch_ms: u64,
}

/// The counters in all at one moment.
#[derive(Debug, Clone, Copy, PartialEq, Eq, Structural)]
pub struct GlobalStatsSnapshot {
    pub uptime_secs: u64,
    pub total_requests: u64,
    pub global_rps: u64,
    pub global_tps: u64,
    pub connected_ips: usize,
}

/// The counters of the supervised streams.
#[derive(Debug, Clone, Copy, PartialEq, Eq, Structural)]
pub struct SupervisorCounters {
    /// Streams that run now.
    pub active: u64,
    /// Streams that have ended.
    pub drops_total: u64,
    /// Forwarders that did not end by themselves in time.
    pub forwarder_aborted_total: u64,
}

/// What is kept of a client across restarts.
#[derive(Debug, Clone, Copy, PartialEq, Eq, Structural)]
pub struct PersistedIpStats {
    pub total_rpc_requests: u64,
    pub total_tx_sends: u64,
    pub total_ws_messages: u64,
    pub total_grpc_requests: u64,
    pub total_arpc_requests: u64,
    pub rate_limited_count: u64,
    pub error_count: u64,
}

/// One client's counters as they were kept; the address is missing where what stood there was none.
#[derive(Debug, Clone, Copy)]
pub struct PersistedEntry {
    pub ip: Option<IpAddr>,
    pub stats: PersistedIpStats,
}

/// What is kept across restarts.
#[derive(Debug)]
pub struct PersistedStats {
    pub global_total_requests: u64,
    pub per_ip: Vec<PersistedEntry>,
}

/// A kind of connection that is counted while it lasts.
#[derive(Debug, Clone, Copy, PartialEq, Eq, Structural)]
pub enum Conn {
    Rpc,
    Ws,
    Grpc,
    Arpc,
}

/// A kind of event that is counted for a client.
#[derive(Debug, Clone, Copy, PartialEq, Eq, Structural)]
pub enum Tally {
    RateLimited,
    Error,
    WsMessage,
    GrpcRequest,
    ArpcRequest,
}

/// Everything that is counted.
pub struct Stats {
    pub per_ip: dashmap::DashMap<IpKey, IpStats>,
    // Global counters
    pub global_rps_current: u64,
    pub global_tps_current: u64,
    pub global_total_requests: u64,
    pub supervisor: SupervisorCounters,
}

/// The counters that a map holds by address.
pub uninterp spec fn stats_in(m: dashmap::DashMap<IpKey, IpStats>) -> Map<IpKey, IpStats>;

/// `DashMap::new`: an empty map.
#[verifier::external_body]
fn new_map() -> (m: dashmap::DashMap<IpKey, IpStats>)
    ensures
        (stats_in(m) == Map::<IpKey, IpStats>::empty()),
{
    dashmap::DashMap::new()
}

/// `DashMap::insert`: the value stands under the key, in place of any before it.
#[verifier::external_body]
fn put(m: &mut dashmap::DashMap<IpKey, IpStats>, key: IpKey, value: IpStats)
    ensures
        stats_in(*final(m)) == stats_in(*old(m)).insert(key, value),
{
    m.insert(key, value);
}

/// `DashMap::get`: the value under the key, where there is one.
#[verifier::external_body]
fn find(m: &dashmap::DashMap<IpKey, IpStats>, key: IpKey) -> (r: Option<IpStats>)
    ensures
        match r {
            Some(s) => stats_in(*m).contains_key(key) && stats_in(*m)[key] == s,
            None => !stats_in(*m).contains_key(key),
        },
{
    m.get(&key).map(|e| *e.value())
}

/// `DashMap::len`: how many keys the map holds.
#[verifier::external_body]
fn count(m: &dashmap::DashMap<IpKey, IpStats>) -> (r: usize)
    ensures
        r == stats_in(*m).dom().len(),
{
    m.len()
}

/// `DashMap::iter`, by its keys: each key of the map once. The order is left to the hasher.
#[verifier::external_body]
fn keys(m: &dashmap::DashMap<IpKey, IpStats>) -> (r: Vec<IpKey>)
    ensures
        r@.no_duplicates(),
        r@.to_set() == stats_in(*m).dom(),
{
    m.iter().map(|e| *e.key()).collect()
}

impl Default for IpStats {
    fn default() -> (s: Self)
        ensures
            s == zero_stats(),
    {
        IpStats {
            active_rpc_conns: 0,
            active_ws_conns: 0,
            active_grpc_streams: 0,
            active_arpc_streams: 0,
            total_rpc_requests: 0,
            total_tx_sends: 0,
            total_ws_messages: 0,
            total_grpc_requests: 0,
            total_arpc_requests: 0,
            rate_limited_count: 0,
            error_count: 0,
            last_seen_epoch_ms: 0,
            rps_current: 0,
            tps_current: 0,
        }
    }
}

/// Counters that have not counted anything.
pub open spec fn zero_stats() -> IpStats {
    IpStats {
        active_rpc_conns: 0,
        active_ws_conns: 0,
        active_grpc_streams: 0,
        active_arpc_streams: 0,
        total_rpc_requests: 0,
        total_tx_sends: 0,
        total_ws_messages: 0,
        total_grpc_requests: 0,
        total_arpc_requests: 0,
        rate_limited_count: 0,
        error_count: 0,
        last_seen_epoch_ms: 0,
        rps_current: 0,
        tps_current: 0,
    }
}

/// The counters of a client, all zero where it has not been seen.
pub open spec fn stats_or_zero(m: Map<IpKey, IpStats>, key: IpKey) -> IpStats {
    if m.contains_key(key) {
        m[key]
    } else {
        zero_stats()
    }
}

/// A client's counters after a request.
pub open spec fn after_rpc(s: IpStats, is_send_tx: bool, now_ms: u64) -> IpStats {
    IpStats {
        total_rpc_requests: s.total_rpc_requests.wrapping_add(1),
        rps_current: s.rps_current.wrapping_add(1),
        last_seen_epoch_ms: now_ms,
        total_tx_sends: if is_send_tx {
            s.total_tx_sends.wrapping_add(1)
        } else {
            s.total_tx_sends
        },
        tps_current: if is_send_tx {
            s.tps_current.wrapping_add(1)
        } else {
            s.tps_current
        },
        ..s
    }
}

/// A client's counters after an event.
pub open spec fn after_tally(s: IpStats, what: Tally) -> IpStats {
    match what {
        Tally::RateLimited => IpStats {
            rate_limited_count: s.rate_limited_count.wrapping_add(1),
            ..s
        },
        Tally::Error => IpStats { error_count: s.error_count.wrapping_add(1), ..s },
        Tally::WsMessage => IpStats { total_ws_messages: s.total_ws_messages.wrapping_add(1), ..s },
        Tally::GrpcRequest => IpStats {
            total_grpc_requests: s.total_grpc_requests.wrapping_add(1),
            ..s
        },
        Tally::ArpcRequest => IpStats {
            total_arpc_requests: s.total_arpc_requests.wrapping_add(1),
            ..s
        },
    }
}

/// A client's counters when a connection has begun.
pub open spec fn after_enter(s: IpStats, conn: Conn) -> IpStats {
    match conn {
        Conn::Rpc => IpStats { active_rpc_conns: s.active_rpc_conns.wrapping_add(1), ..s },
        Conn::Ws => IpStats { active_ws_conns: s.active_ws_conns.wrapping_add(1), ..s },
        Conn::Grpc => IpStats { active_grpc_streams: s.active_grpc_streams.wrapping_add(1), ..s },
        Conn::Arpc => IpStats { active_arpc_streams: s.active_arpc_streams.wrapping_add(1), ..s },
    }
}

/// A client's counters when a connection has ended.
pub open spec fn after_leave(s: IpStats, conn: Conn) -> IpStats {
    match conn {
        Conn::Rpc => IpStats { active_rpc_conns: s.active_rpc_conns.wrapping_sub(1), ..s },
        Conn::Ws => IpStats { active_ws_conns: s.active_ws_conns.wrapping_sub(1), ..s },
        Conn::Grpc => IpStats { active_grpc_streams: s.active_grpc_streams.wrapping_sub(1), ..s },
        Conn::Arpc => IpStats { active_arpc_streams: s.active_arpc_streams.wrapping_sub(1), ..s },
    }
}

/// A client's connections of a kind that last.
pub open spec fn active_of(s: IpStats, conn: Conn) -> u64 {
    match conn {
        Conn::Rpc => s.active_rpc_conns,
        Conn::Ws => s.active_ws_conns,
        Conn::Grpc => s.active_grpc_streams,
        Conn::Arpc => s.active_arpc_streams,
    }
}

/// The counters of every client but one are as they were.
pub open spec fn others_unchanged(
    before: Map<IpKey, IpStats>,
    after: Map<IpKey, IpStats>,
    key: IpKey,
) -> bool {
    forall|k: IpKey|
        k != key ==> {
            &&& #[trigger] after.contains_key(k) <==> before.contains_key(k)
            &&& before.contains_key(k) ==> after[k] == before[k]
        }
}

/// A client's counters at the end of a second.
pub open spec fn after_second(s: IpStats) -> IpStats {
    IpStats { rps_current: 0, tps_current: 0, ..s }
}

/// A client's counters at one moment.
pub open spec fn snapshot_of(s: IpStats) -> IpStatsSnapshot {
    IpStatsSnapshot {
        active_rpc_conns: s.active_rpc_conns,
        active_ws_conns: s.active_ws_conns,
        active_grpc_streams: s.active_grpc_streams,
        active_arpc_streams: s.active_arpc_streams,
        total_rpc_requests: s.total_rpc_requests,
        total_tx_sends: s.total_tx_sends,
        total_ws_messages: s.total_ws_messages,
        total_grpc_requests: s.total_grpc_requests,
        total_arpc_requests: s.total_arpc_requests,
        rate_limited_count: s.rate_limited_count,
        error_count: s.error_count,
        rps_current: s.rps_current,
        tps_current: s.tps_current,
        last_seen_epoch_ms: s.last_seen_epoch_ms,
    }
}

/// `list` shows each client of `m` once, with its counters.
pub open spec fn shows(list: Seq<(IpAddr, IpStatsSnapshot)>, m: Map<IpKey, IpStats>) -> bool {
    &&& forall|i: int|
        0 <= i < list.len() ==> m.contains_key(net::ip_key((#[trigger] list[i]).0)) && list[i].1
            == snapshot_of(m[net::ip_key(list[i].0)])
    &&& forall|i: int, j: int|
        0 <= i < j < list.len() ==> (#[trigger] list[i]).0 != (#[trigger] list[j]).0
    &&& forall|k: IpKey| #[trigger]
        m.contains_key(k) ==> exists|i: int|
            0 <= i < list.len() && net::ip_key((#[trigger] list[i]).0) == k
}

/// Every key stands for an address.
pub open spec fn keys_are_addresses(m: Map<IpKey, IpStats>) -> bool {
    forall|k: IpKey| #[trigger] m.contains_key(k) ==> k == net::ip_key(net::key_ip(k))
}

/// The sum of a figure over all clients.
pub open spec fn sum_over(m: Map<IpKey, IpStats>, f: spec_fn(IpStats) -> nat) -> nat
    decreases m.dom().len(),
{
    if m.dom().finite() && m.dom().len() > 0 {
        let k = m.dom().choose();
        f(m[k]) + sum_over(m.remove(k), f)
    } else {
        0
    }
}

/// A client's requests.
pub open spec fn requests() -> spec_fn(IpStats) -> nat {
    |s: IpStats| s.total_rpc_requests as nat
}

/// A client's requests of this second.
pub open spec fn recent_requests() -> spec_fn(IpStats) -> nat {
    |s: IpStats| s.rps_current as nat
}

/// A client's transactions of this second.
pub open spec fn recent_sends() -> spec_fn(IpStats) -> nat {
    |s: IpStats| s.tps_current as nat
}

/// A client has not sent more transactions than requests, nor asked more in this second than ever.
pub open spec fn counts_fit(s: IpStats) -> bool {
    &&& s.total_tx_sends <= s.total_rpc_requests
    &&& s.tps_current <= s.rps_current <= s.total_rpc_requests
}

/// The counters in all are the sums over the clients, and each client's counters fit together.
pub open spec fn is_sum(m: Map<IpKey, IpStats>, total: u64, rps: u64, tps: u64) -> bool {
    &&& m.dom().finite()
    &&& total == sum_over(m, requests())
    &&& rps == sum_over(m, recent_requests())
    &&& tps == sum_over(m, recent_sends())
    &&& forall|k: IpKey| #[trigger] m.contains_key(k) ==> counts_fit(m[k])
}

/// A sum is that over the other clients and the figure of one.
proof fn lemma_sum_remove(m: Map<IpKey, IpStats>, k: IpKey, f: spec_fn(IpStats) -> nat)
    requires
        m.dom().finite(),
        m.contains_key(k),
    ensures
        sum_over(m, f) == sum_over(m.remove(k), f) + f(m[k]),
    decreases m.dom().len(),
{
    let c = m.dom().choose();
    assert(m.dom().contains(k));
    assert(m.dom().len() > 0);
    assert(m.dom().contains(c));
    if c != k {
        lemma_sum_remove(m.remove(c), k, f);
        lemma_sum_remove(m.remove(k), c, f);
        assert(m.remove(c).remove(k) =~= m.remove(k).remove(c));
    }
}

/// How a sum changes with the figure of one client.
proof fn lemma_sum_insert(m: Map<IpKey, IpStats>, k: IpKey, v: IpStats, f: spec_fn(IpStats) -> nat)
    requires
        m.dom().finite(),
        f(zero_stats()) == 0,
    ensures
        m.insert(k, v).dom().finite(),
        sum_over(m.insert(k, v), f) + f(stats_or_zero(m, k)) == sum_over(m, f) + f(v),
        f(stats_or_zero(m, k)) <= sum_over(m, f),
{
    let after = m.insert(k, v);
    lemma_sum_remove(after, k, f);
    assert(after.remove(k) =~= m.remove(k));
    if m.contains_key(k) {
        lemma_sum_remove(m, k, f);
    } else {
        assert(m.remove(k) =~= m);
    }
}

/// A sum of smaller figures is no larger.
proof fn lemma_sum_at_most(
    m: Map<IpKey, IpStats>,
    f: spec_fn(IpStats) -> nat,
    g: spec_fn(IpStats) -> nat,
)
    requires
        forall|k: IpKey| #[trigger] m.contains_key(k) ==> f(m[k]) <= g(m[k]),
    ensures
        sum_over(m, f) <= sum_over(m, g),
    decreases m.dom().len(),
{
    if m.dom().finite() && m.dom().len() > 0 {
        let c = m.dom().choose();
        assert(m.contains_key(c));
        assert forall|k: IpKey| #[trigger] m.remove(c).contains_key(k) implies f(m.remove(c)[k])
            <= g(m.remove(c)[k]) by {
            assert(m.contains_key(k));
        }
        lemma_sum_at_most(m.remove(c), f, g);
    }
}

/// A sum over changed counters is that of the changed figures.
proof fn lemma_sum_changed(
    m: Map<IpKey, IpStats>,
    change: spec_fn(IpStats) -> IpStats,
    f: spec_fn(IpStats) -> nat,
    g: spec_fn(IpStats) -> nat,
)
    requires
        forall|s: IpStats| #[trigger] f(change(s)) == g(s),
    ensures
        sum_over(m.map_values(change), f) == sum_over(m, g),
    decreases m.dom().len(),
{
    let after = m.map_values(change);
    assert(after.dom() =~= m.dom());
    if m.dom().finite() && m.dom().len() > 0 {
        let c = m.dom().choose();
        assert(m.contains_key(c));
        assert(f(change(m[c])) == g(m[c]));
        assert(after.remove(c) =~= m.remove(c).map_values(change));
        lemma_sum_changed(m.remove(c), change, f, g);
    }
}

/// A sum of nothing is nothing.
proof fn lemma_sum_of_nothing(m: Map<IpKey, IpStats>)
    ensures
        sum_over(m, |s: IpStats| 0nat) == 0,
    decreases m.dom().len(),
{
    if m.dom().finite() && m.dom().len() > 0 {
        let c = m.dom().choose();
        assert(m.contains_key(c));
        lemma_sum_of_nothing(m.remove(c));
    }
}

/// What does not count requests leaves the sums as they are.
proof fn lemma_sums_stay(
    m: Map<IpKey, IpStats>,
    total: u64,
    rps: u64,
    tps: u64,
    k: IpKey,
    v: IpStats,
)
    requires
        is_sum(m, total, rps, tps),
        ({
            let was = stats_or_zero(m, k);
            &&& v.total_rpc_requests == was.total_rpc_requests
            &&& v.total_tx_sends == was.total_tx_sends
            &&& v.rps_current == was.rps_current
            &&& v.tps_current == was.tps_current
        }),
    ensures
        is_sum(m.insert(k, v), total, rps, tps),
{
    lemma_sum_insert(m, k, v, requests());
    lemma_sum_insert(m, k, v, recent_requests());
    lemma_sum_insert(m, k, v, recent_sends());
}

/// A request counts once for its client and once in all.
proof fn lemma_sums_grow(
    m: Map<IpKey, IpStats>,
    total: u64,
    rps: u64,
    tps: u64,
    k: IpKey,
    is_send_tx: bool,
    now_ms: u64,
)
    requires
        is_sum(m, total, rps, tps),
        total < u64::MAX,
    ensures
        is_sum(
            m.insert(k, after_rpc(stats_or_zero(m, k), is_send_tx, now_ms)),
            total.wrapping_add(1),
            rps.wrapping_add(1),
            if is_send_tx {
                tps.wrapping_add(1)
            } else {
                tps
            },
        ),
{
    let was = stats_or_zero(m, k);
    let v = after_rpc(was, is_send_tx, now_ms);
    lemma_sum_insert(m, k, v, requests());
    lemma_sum_insert(m, k, v, recent_requests());
    lemma_sum_insert(m, k, v, recent_sends());
    lemma_sum_at_most(m, recent_requests(), requests());
    lemma_sum_at_most(m, recent_sends(), recent_requests());
    assert(counts_fit(was));
}

/// At the end of a second the sums of that second begin anew.
proof fn lemma_sums_of_a_new_second(m: Map<IpKey, IpStats>, total: u64, rps: u64, tps: u64)
    requires
        is_sum(m, total, rps, tps),
    ensures
        is_sum(m.map_values(|s: IpStats| after_second(s)), total, 0, 0),
{
    let change = |s: IpStats| after_second(s);
    let after = m.map_values(change);
    let nothing = |s: IpStats| 0nat;
    assert(after.dom() =~= m.dom());
    lemma_sum_changed(m, change, requests(), requests());
    lemma_sum_changed(m, change, recent_requests(), nothing);
    lemma_sum_changed(m, change, recent_sends(), nothing);
    lemma_sum_of_nothing(m);
    assert forall|k: IpKey| #[trigger] after.contains_key(k) implies counts_fit(after[k]) by {
        assert(m.contains_key(k));
    }
}

/// What is kept of a client's counters.
pub open spec fn persisted(s: IpStats) -> PersistedIpStats {
    PersistedIpStats {
        total_rpc_requests: s.total_rpc_requests,
        total_tx_sends: s.total_tx_sends,
        total_ws_messages: s.total_ws_messages,
        total_grpc_requests: s.total_grpc_requests,
        total_arpc_requests: s.total_arpc_requests,
        rate_limited_count: s.rate_limited_count,
        error_count: s.error_count,
    }
}

/// A client's counters with those that were kept put back.
pub open spec fn restored_one(s: IpStats, p: PersistedIpStats) -> IpStats {
    IpStats {
        total_rpc_requests: p.total_rpc_requests,
        total_tx_sends: p.total_tx_sends,
        total_ws_messages: p.total_ws_messages,
        total_grpc_requests: p.total_grpc_requests,
        total_arpc_requests: p.total_arpc_requests,
        rate_limited_count: p.rate_limited_count,
        error_count: p.error_count,
        ..s
    }
}

/// The counters by address with those that were kept put back, in order; entries without an
/// address are passed over.
pub open spec fn restored(m: Map<IpKey, IpStats>, entries: Seq<PersistedEntry>) -> Map<
    IpKey,
    IpStats,
>
    decreases entries.len(),
{
    if entries.len() == 0 {
        m
    } else {
        let before = restored(m, entries.drop_last());
        match entries.last().ip {
            Some(ip) => before.insert(
                net::ip_key(ip),
                restored_one(stats_or_zero(before, net::ip_key(ip)), entries.last().stats),
            ),
            None => before,
        }
    }
}

/// `entries` keeps each client of `m` once, with what is kept of its counters.
pub open spec fn is_persisted(entries: Seq<PersistedEntry>, m: Map<IpKey, IpStats>) -> bool {
    &&& forall|i: int|
        0 <= i < entries.len() ==> {
            let e = #[trigger] entries[i];
            &&& e.ip is Some
            &&& m.contains_key(net::ip_key(e.ip->0))
            &&& e.stats == persisted(m[net::ip_key(e.ip->0)])
        }
    &&& forall|i: int, j: int|
        0 <= i < j < entries.len() ==> (#[trigger] entries[i]).ip != (#[trigger] entries[j]).ip
    &&& forall|k: IpKey| #[trigger]
        m.contains_key(k) ==> exists|i: int|
            0 <= i < entries.len() && (#[trigger] entries[i]).ip is Some && net::ip_key(
                entries[i].ip->0,
            ) == k
}

impl IpStats {
    /// The counters at this moment.
    pub fn snapshot(&self) -> (r: IpStatsSnapshot)
        ensures
            r == snapshot_of(*self),
    {
        IpStatsSnapshot {
            active_rpc_conns: self.active_rpc_conns,
            active_ws_conns: self.active_ws_conns,
            active_grpc_streams: self.active_grpc_streams,
            active_arpc_streams: self.active_arpc_streams,
            total_rpc_requests: self.total_rpc_requests,
            total_tx_sends: self.total_tx_sends,
            total_ws_messages: self.total_ws_messages,
            total_grpc_requests: self.total_grpc_requests,
            total_arpc_requests: self.total_arpc_requests,
            rate_limited_count: self.rate_limited_count,
            error_count: self.error_count,
            rps_current: self.rps_current,
            tps_current: self.tps_current,
            last_seen_epoch_ms: self.last_seen_epoch_ms,
        }
    }

    /// Notes when the client was last seen.
    fn touch(&mut self, now_ms: u64)
        ensures
            *final(self) == (IpStats { last_seen_epoch_ms: now_ms, ..*old(self) }),
    {
        self.last_seen_epoch_ms = now_ms;
    }

    /// Connections of a kind that last.
    pub fn active(&self, conn: Conn) -> (r: u64)
        ensures
            r == active_of(*self, conn),
    {
        match conn {
            Conn::Rpc => self.active_rpc_conns,
            Conn::Ws => self.active_ws_conns,
            Conn::Grpc => self.active_grpc_streams,
            Conn::Arpc => self.active_arpc_streams,
        }
    }
}

impl Stats {
    /// The counters by address.
    pub open spec fn by_ip(self) -> Map<IpKey, IpStats> {
        stats_in(self.per_ip)
    }

    /// Every key of the counters stands for an address.
    pub open spec fn wf(self) -> bool {
        keys_are_addresses(self.by_ip())
    }

    /// The counters in all are the sums over the clients, and no client has sent more transactions
    /// than requests.
    pub open spec fn balanced(self) -> bool {
        is_sum(
            self.by_ip(),
            self.global_total_requests,
            self.global_rps_current,
            self.global_tps_current,
        )
    }

    /// `r` are the counters in all at this moment.
    pub open spec fn is_shown_in_all(self, uptime_secs: u64, r: GlobalStatsSnapshot) -> bool {
        &&& r.uptime_secs == uptime_secs
        &&& r.total_requests == self.global_total_requests
        &&& r.global_rps == self.global_rps_current
        &&& r.global_tps == self.global_tps_current
        &&& r.connected_ips == self.by_ip().dom().len()
    }

    /// `after` are these counters with one more request.
    pub open spec fn counted_request(
        self,
        after: Stats,
        ip: IpAddr,
        is_send_tx: bool,
        now_ms: u64,
    ) -> bool {
        &&& after.by_ip() == self.by_ip().insert(
            net::ip_key(ip),
            after_rpc(stats_or_zero(self.by_ip(), net::ip_key(ip)), is_send_tx, now_ms),
        )
        &&& after.global_total_requests == self.global_total_requests.wrapping_add(1)
        &&& after.global_rps_current == self.global_rps_current.wrapping_add(1)
        &&& after.global_tps_current == if is_send_tx {
            self.global_tps_current.wrapping_add(1)
        } else {
            self.global_tps_current
        }
        &&& after.supervisor == self.supervisor
    }

    /// `after` are these counters at the end of a second.
    pub open spec fn ended_second(self, after: Stats) -> bool {
        &&& after.by_ip() == self.by_ip().map_values(|s: IpStats| after_second(s))
        &&& after.global_rps_current == 0
        &&& after.global_tps_current == 0
        &&& after.global_total_requests == self.global_total_requests
        &&& after.supervisor == self.supervisor
    }

    /// `p` is what is kept of these counters.
    pub open spec fn is_kept(self, p: PersistedStats) -> bool {
        &&& p.global_total_requests == self.global_total_requests
        &&& is_persisted(p.per_ip@, self.by_ip())
    }

    /// `after` are these counters with what was kept put back.
    pub open spec fn is_put_back(self, after: Stats, kept: PersistedStats) -> bool {
        &&& after.global_total_requests == kept.global_total_requests
        &&& after.by_ip() == restored(self.by_ip(), kept.per_ip@)
        &&& after.global_rps_current == self.global_rps_current
        &&& after.global_tps_current == self.global_tps_current
        &&& after.supervisor == self.supervisor
    }

    /// The counters by address are the only ones that differ.
    pub open spec fn same_globals(self, other: Stats) -> bool {
        &&& self.global_rps_current == other.global_rps_current
        &&& self.global_tps_current == other.global_tps_current
        &&& self.global_total_requests == other.global_total_requests
        &&& self.supervisor == other.supervisor
    }

    /// Nothing has been counted.
    pub fn new() -> (s: Stats)
        ensures
            s.wf(),
            s.balanced(),
            s.by_ip() == Map::<IpKey, IpStats>::empty(),
            s.global_rps_current == 0,
            s.global_tps_current == 0,
            s.global_total_requests == 0,
            s.supervisor == (SupervisorCounters {
                active: 0,
                drops_total: 0,
                forwarder_aborted_total: 0,
            }),
    {
        Stats {
            per_ip: new_map(),
            global_rps_current: 0,
            global_tps_current: 0,
            global_total_requests: 0,
            supervisor: SupervisorCounters {
                active: 0,
                drops_total: 0,
                forwarder_aborted_total: 0,
            },
        }
    }

    /// The counters of a client; one that has not been seen gets counters at zero.
    pub fn get_or_create(&mut self, ip: IpAddr) -> (s: IpStats)
        ensures
            old(self).wf() ==> final(self).wf(),
            old(self).balanced() ==> final(self).balanced(),
            s == stats_or_zero(old(self).by_ip(), net::ip_key(ip)),
            final(self).by_ip() == old(self).by_ip().insert(net::ip_key(ip), s),
            final(self).same_globals(*old(self)),
    {
        let key = ip.key();
        proof {
            net::lemma_ip_key_injective(ip, ip);
        }
        match find(&self.per_ip, key) {
            Some(s) => {
                assert(self.by_ip().insert(key, s) =~= self.by_ip());
                s
            },
            None => {
                let s = IpStats::default();
                put(&mut self.per_ip, key, s);
                proof {
                    if old(self).balanced() {
                        lemma_sums_stay(
                            old(self).by_ip(),
                            self.global_total_requests,
                            self.global_rps_current,
                            self.global_tps_current,
                            key,
                            s,
                        );
                    }
                }
                s
            },
        }
    }

    /// The counters of the streams that are supervised.
    pub fn supervisor_counters(&self) -> (r: SupervisorCounters)
        ensures
            r == self.supervisor,
    {
        self.supervisor
    }

    /// Counts a request.
    pub fn record_rpc(&mut self, ip: IpAddr, is_send_tx: bool, now_ms: u64)
        ensures
            old(self).wf() ==> final(self).wf(),
            old(self).balanced() && old(self).global_total_requests < u64::MAX ==> final(self).balanced(),
            old(self).counted_request(*final(self), ip, is_send_tx, now_ms),
    {
        let ghost start = self.by_ip();
        let mut stats = self.get_or_create(ip);
        stats.total_rpc_requests = stats.total_rpc_requests.wrapping_add(1);
        stats.rps_current = stats.rps_current.wrapping_add(1);
        stats.touch(now_ms);
        self.global_total_requests = self.global_total_requests.wrapping_add(1);
        self.global_rps_current = self.global_rps_current.wrapping_add(1);
        if is_send_tx {
            stats.total_tx_sends = stats.total_tx_sends.wrapping_add(1);
            stats.tps_current = stats.tps_current.wrapping_add(1);
            self.global_tps_current = self.global_tps_current.wrapping_add(1);
        }
        put(&mut self.per_ip, ip.key(), stats);
        assert(self.by_ip() =~= start.insert(net::ip_key(ip), stats));
        proof {
            let o = old(self);
            if o.balanced() && o.global_total_requests < u64::MAX {
                lemma_sums_grow(
                    start,
                    o.global_total_requests,
                    o.global_rps_current,
                    o.global_tps_current,
                    net::ip_key(ip),
                    is_send_tx,
                    now_ms,
                );
            }
        }
    }

    /// Counts an event of a client.
    pub fn record(&mut self, ip: IpAddr, what: Tally)
        ensures
            old(self).wf() ==> final(self).wf(),
            old(self).balanced() ==> final(self).balanced(),
            final(self).by_ip() == old(self).by_ip().insert(
                net::ip_key(ip),
                after_tally(stats_or_zero(old(self).by_ip(), net::ip_key(ip)), what),
            ),
            final(self).same_globals(*old(self)),
    {
        let ghost start = self.by_ip();
        let mut s = self.get_or_create(ip);
        match what {
            Tally::RateLimited => {
                s.rate_limited_count = s.rate_limited_count.wrapping_add(1);
            },
            Tally::Error => {
                s.error_count = s.error_count.wrapping_add(1);
            },
            Tally::WsMessage => {
                s.total_ws_messages = s.total_ws_messages.wrapping_add(1);
            },
            Tally::GrpcRequest => {
                s.total_grpc_requests = s.total_grpc_requests.wrapping_add(1);
            },
            Tally::ArpcRequest => {
                s.total_arpc_requests = s.total_arpc_requests.wrapping_add(1);
            },
        }
        put(&mut self.per_ip, ip.key(), s);
        assert(self.by_ip() =~= start.insert(net::ip_key(ip), s));
        proof {
            if old(self).balanced() {
                lemma_sums_stay(
                    start,
                    self.global_total_requests,
                    self.global_rps_current,
                    self.global_tps_current,
                    net::ip_key(ip),
                    s,
                );
            }
        }
    }

    /// Counts a request that met a rate limit.
    pub fn record_rate_limited(&mut self, ip: IpAddr)
        ensures
            old(self).wf() ==> final(self).wf(),
            old(self).balanced() ==> final(self).balanced(),
            final(self).by_ip() == old(self).by_ip().insert(
                net::ip_key(ip),
                after_tally(
                    stats_or_zero(old(self).by_ip(), net::ip_key(ip)),
                    Tally::RateLimited,
                ),
            ),
            final(self).same_globals(*old(self)),
    {
        self.record(ip, Tally::RateLimited);
    }

    /// Counts a request that failed.
    pub fn record_error(&mut self, ip: IpAddr)
        ensures
            old(self).wf() ==> final(self).wf(),
            old(self).balanced() ==> final(self).balanced(),
            final(self).by_ip() == old(self).by_ip().insert(
                net::ip_key(ip),
                after_tally(stats_or_zero(old(self).by_ip(), net::ip_key(ip)), Tally::Error),
            ),
            final(self).same_globals(*old(self)),
    {
        self.record(ip, Tally::Error);
    }

    /// Notes that a connection has begun.
    pub fn enter(&mut self, ip: IpAddr, conn: Conn)
        ensures
            old(self).wf() ==> final(self).wf(),
            old(self).balanced() ==> final(self).balanced(),
            final(self).by_ip() == old(self).by_ip().insert(
                net::ip_key(ip),
                after_enter(stats_or_zero(old(self).by_ip(), net::ip_key(ip)), conn),
            ),
            final(self).same_globals(*old(self)),
    {
        let ghost start = self.by_ip();
        let mut s = self.get_or_create(ip);
        match conn {
            Conn::Rpc => {
                s.active_rpc_conns = s.active_rpc_conns.wrapping_add(1);
            },
            Conn::Ws => {
                s.active_ws_conns = s.active_ws_conns.wrapping_add(1);
            },
            Conn::Grpc => {
                s.active_grpc_streams = s.active_grpc_streams.wrapping_add(1);
            },
            Conn::Arpc => {
                s.active_arpc_streams = s.active_arpc_streams.wrapping_add(1);
            },
        }
        put(&mut self.per_ip, ip.key(), s);
        assert(self.by_ip() =~= start.insert(net::ip_key(ip), s));
        proof {
            if old(self).balanced() {
                lemma_sums_stay(
                    start,
                    self.global_total_requests,
                    self.global_rps_current,
                    self.global_tps_current,
                    net::ip_key(ip),
                    s,
                );
            }
        }
    }

    /// Notes that a connection has ended.
    pub fn leave(&mut self, ip: IpAddr, conn: Conn)
        ensures
            old(self).wf() ==> final(self).wf(),
            old(self).balanced() ==> final(self).balanced(),
            final(self).by_ip() == old(self).by_ip().insert(
                net::ip_key(ip),
                after_leave(stats_or_zero(old(self).by_ip(), net::ip_key(ip)), conn),
            ),
            final(self).same_globals(*old(self)),
    {
        let ghost start = self.by_ip();
        let mut s = self.get_or_create(ip);
        match conn {
            Conn::Rpc => {
                s.active_rpc_conns = s.active_rpc_conns.wrapping_sub(1);
            },
            Conn::Ws => {
                s.active_ws_conns = s.active_ws_conns.wrapping_sub(1);
            },
            Conn::Grpc => {
                s.active_grpc_streams = s.active_grpc_streams.wrapping_sub(1);
            },
            Conn::Arpc => {
                s.active_arpc_streams = s.active_arpc_streams.wrapping_sub(1);
            },
        }
        put(&mut self.per_ip, ip.key(), s);
        assert(self.by_ip() =~= start.insert(net::ip_key(ip), s));
        proof {
            if old(self).balanced() {
                lemma_sums_stay(
                    start,
                    self.global_total_requests,
                    self.global_rps_current,
                    self.global_tps_current,
                    net::ip_key(ip),
                    s,
                );
            }
        }
    }

    /// The counters in all at this moment.
    pub fn global_snapshot(&self, uptime_secs: u64) -> (r: GlobalStatsSnapshot)
        ensures
            self.is_shown_in_all(uptime_secs, r),
    {
        GlobalStatsSnapshot {
            uptime_secs,
            total_requests: self.global_total_requests,
            global_rps: self.global_rps_current,
            global_tps: self.global_tps_current,
            connected_ips: count(&self.per_ip),
        }
    }

    /// Reset rolling window counters (called every second)
    pub fn reset_rolling_counters(&mut self)
        ensures
            old(self).wf() ==> final(self).wf(),
            old(self).balanced() ==> final(self).balanced(),
            old(self).ended_second(*final(self)),
    {
        let ghost start = self.by_ip();
        self.global_rps_current = 0;
        self.global_tps_current = 0;
        let all = keys(&self.per_ip);
        let mut i: usize = 0;
        while i < all.len()
            invariant
                i <= all@.len(),
                all@.no_duplicates(),
                all@.to_set() == start.dom(),
                self.by_ip().dom() == start.dom(),
                forall|k: IpKey| #[trigger]
                    start.contains_key(k) ==> self.by_ip()[k] == (if all@.take(i as int).contains(
                        k,
                    ) {
                        after_second(start[k])
                    } else {
                        start[k]
                    }),
                self.global_rps_current == 0,
                self.global_tps_current == 0,
                self.global_total_requests == old(self).global_total_requests,
                self.supervisor == old(self).supervisor,
            decreases all@.len() - i,
        {
            let key = all[i];
            let ghost before = self.by_ip();
            let ghost done = all@.take(i as int);
            let ghost next = all@.take(i + 1);
            proof {
                assert(all@.to_set().contains(key));
                assert(!done.contains(key)) by {
                    if done.contains(key) {
                        let j = done.index_of(key);
                        assert(all@[j] == key);
                    }
                }
                assert(next =~= done.push(key));
            }
            if let Some(s) = find(&self.per_ip, key) {
                let mut s = s;
                s.rps_current = 0;
                s.tps_current = 0;
                put(&mut self.per_ip, key, s);
            }
            assert(self.by_ip().dom() =~= start.dom());
            assert forall|k: IpKey| #[trigger] start.contains_key(k) implies self.by_ip()[k] == (if next.contains(
                k,
            ) {
                after_second(start[k])
            } else {
                start[k]
            }) by {
                if k == key {
                    assert(next[i as int] == key);
                } else {
                    if next.contains(k) {
                        assert(done[next.index_of(k)] == k);
                    }
                    if done.contains(k) {
                        assert(next[done.index_of(k)] == k);
                    }
                }
            }
            i = i + 1;
        }
        assert(all@.take(i as int) =~= all@);
        assert forall|k: IpKey| #[trigger] start.contains_key(k) implies self.by_ip()[k]
            == after_second(start[k]) by {
            assert(all@.to_set().contains(k));
        }
        assert(self.by_ip() =~= start.map_values(|s: IpStats| after_second(s)));
        proof {
            let o = old(self);
            if o.balanced() {
                lemma_sums_of_a_new_second(
                    start,
                    o.global_total_requests,
                    o.global_rps_current,
                    o.global_tps_current,
                );
            }
        }
    }

    /// The counters of every client at this moment.
    pub fn snapshots(&self) -> (r: Vec<(IpAddr, IpStatsSnapshot)>)
        requires
            self.wf(),
        ensures
            shows(r@, self.by_ip()),
    {
        let all = keys(&self.per_ip);
        let mut out: Vec<(IpAddr, IpStatsSnapshot)> = Vec::new();
        let mut i: usize = 0;
        while i < all.len()
            invariant
                i <= all@.len(),
                all@.no_duplicates(),
                all@.to_set() == self.by_ip().dom(),
                out@.len() == i,
                forall|j: int|
                    0 <= j < i ==> {
                        let e = #[trigger] out@[j];
                        &&& e.0 == net::key_ip(all@[j])
                        &&& self.by_ip().contains_key(all@[j])
                        &&& e.1 == snapshot_of(self.by_ip()[all@[j]])
                    },
            decreases all@.len() - i,
        {
            let key = all[i];
            assert(all@.to_set().contains(key));
            if let Some(s) = find(&self.per_ip, key) {
                out.push((IpAddr::from_key(key), s.snapshot()));
            }
            i = i + 1;
        }
        assert forall|j: int| 0 <= j < all@.len() implies net::ip_key(net::key_ip(#[trigger] all@[j]))
            == all@[j] by {
            assert(all@.to_set().contains(all@[j]));
            assert(self.by_ip().contains_key(all@[j]));
        }
        assert forall|k: IpKey| #[trigger] self.by_ip().contains_key(k) implies exists|j: int|
            0 <= j < out@.len() && net::ip_key((#[trigger] out@[j]).0) == k by {
            assert(all@.to_set().contains(k));
            let j = all@.index_of(k);
            assert(all@[j] == k);
            assert(net::ip_key(out@[j].0) == k);
        }
        out
    }

    // --- Persistence ---

    /// What is kept across restarts.
    pub fn persist(&self) -> (p: PersistedStats)
        requires
            self.wf(),
        ensures
            self.is_kept(p),
    {
        let all = keys(&self.per_ip);
        let mut out: Vec<PersistedEntry> = Vec::new();
        let mut i: usize = 0;
        while i < all.len()
            invariant
                i <= all@.len(),
                all@.no_duplicates(),
                all@.to_set() == self.by_ip().dom(),
                out@.len() == i,
                forall|j: int|
                    0 <= j < i ==> {
                        let e = #[trigger] out@[j];
                        &&& e.ip is Some
                        &&& e.ip->0 == net::key_ip(all@[j])
                        &&& self.by_ip().contains_key(all@[j])
                        &&& e.stats == persisted(self.by_ip()[all@[j]])
                    },
            decreases all@.len() - i,
        {
            let key = all[i];
            assert(all@.to_set().contains(key));
            if let Some(s) = find(&self.per_ip, key) {
                out.push(
                    PersistedEntry {
                        ip: Some(IpAddr::from_key(key)),
                        stats: PersistedIpStats {
                            total_rpc_requests: s.total_rpc_requests,
                            total_tx_sends: s.total_tx_sends,
                            total_ws_messages: s.total_ws_messages,
                            total_grpc_requests: s.total_grpc_requests,
                            total_arpc_requests: s.total_arpc_requests,
                            rate_limited_count: s.rate_limited_count,
                            error_count: s.error_count,
                        },
                    },
                );
            }
            i = i + 1;
        }
        assert forall|j: int| 0 <= j < all@.len() implies net::ip_key(net::key_ip(#[trigger] all@[j]))
            == all@[j] by {
            assert(all@.to_set().contains(all@[j]));
            assert(self.by_ip().contains_key(all@[j]));
        }
        assert forall|k: IpKey| #[trigger] self.by_ip().contains_key(k) implies exists|j: int|
            0 <= j < out@.len() && (#[trigger] out@[j]).ip is Some && net::ip_key(out@[j].ip->0)
                == k by {
            assert(all@.to_set().contains(k));
            let j = all@.index_of(k);
            assert(all@[j] == k);
            assert(out@[j].ip is Some && net::ip_key(out@[j].ip->0) == k);
        }
        PersistedStats { global_total_requests: self.global_total_requests, per_ip: out }
    }

    /// Puts back what was kept.
    pub fn restore(&mut self, kept: &PersistedStats)
        ensures
            old(self).wf() ==> final(self).wf(),
            old(self).is_put_back(*final(self), *kept),
    {
        let ghost start = self.by_ip();
        self.global_total_requests = kept.global_total_requests;
        let mut i: usize = 0;
        assert(kept.per_ip@.take(0) =~= Seq::<PersistedEntry>::empty());
        while i < kept.per_ip.len()
            invariant
                i <= kept.per_ip@.len(),
                old(self).wf() ==> self.wf(),
                self.by_ip() == restored(start, kept.per_ip@.take(i as int)),
                self.global_total_requests == kept.global_total_requests,
                self.global_rps_current == old(self).global_rps_current,
                self.global_tps_current == old(self).global_tps_current,
                self.supervisor == old(self).supervisor,
            decreases kept.per_ip@.len() - i,
        {
            assert(kept.per_ip@.take(i + 1).drop_last() =~= kept.per_ip@.take(i as int));
            let e = kept.per_ip[i];
            if let Some(ip) = e.ip {
                let ghost before = self.by_ip();
                let mut s = self.get_or_create(ip);
                s.total_rpc_requests = e.stats.total_rpc_requests;
                s.total_tx_sends = e.stats.total_tx_sends;
                s.total_ws_messages = e.stats.total_ws_messages;
                s.total_grpc_requests = e.stats.total_grpc_requests;
                s.total_arpc_requests = e.stats.total_arpc_requests;
                s.rate_limited_count = e.stats.rate_limited_count;
                s.error_count = e.stats.error_count;
                put(&mut self.per_ip, ip.key(), s);
                assert(self.by_ip() =~= before.insert(net::ip_key(ip), s));
            }
            i = i + 1;
        }
        assert(kept.per_ip@.take(i as int) =~= kept.per_ip@);
    }
}

/// What was kept of the counters is what a restart puts back: for every client that was counted,
/// and for no other, the same figures are kept again.
pub proof fn law_restore_returns_what_was_kept(
    entries: Seq<PersistedEntry>,
    m: Map<IpKey, IpStats>,
    key: IpKey,
)
    requires
        is_persisted(entries, m),
    ensures
        restored(Map::empty(), entries).contains_key(key) == m.contains_key(key),
        m.contains_key(key) ==> persisted(restored(Map::empty(), entries)[key]) == persisted(m[key]),
{
    lemma_restored_prefix(entries, m, key, entries.len() as int);
    assert(entries.take(entries.len() as int) =~= entries);
}

proof fn lemma_restored_prefix(
    entries: Seq<PersistedEntry>,
    m: Map<IpKey, IpStats>,
    key: IpKey,
    n: int,
)
    requires
        is_persisted(entries, m),
        0 <= n <= entries.len(),
    ensures
        ({
            let r = restored(Map::empty(), entries.take(n));
            &&& r.contains_key(key) <==> exists|i: int|
                0 <= i < n && net::ip_key((#[trigger] entries[i]).ip->0) == key
            &&& r.contains_key(key) ==> m.contains_key(key) && persisted(r[key]) == persisted(
                m[key],
            )
        }),
    decreases n,
{
    if n == 0 {
        assert(entries.take(0) =~= Seq::<PersistedEntry>::empty());
    } else {
        lemma_restored_prefix(entries, m, key, n - 1);
        assert(entries.take(n).drop_last() =~= entries.take(n - 1));
        let e = entries[n - 1];
        assert(entries.take(n).last() == e);
        assert(e.ip is Some);
        if restored(Map::empty(), entries.take(n - 1)).contains_key(key) {
            let i = choose|i: int|
                0 <= i < n - 1 && net::ip_key((#[trigger] entries[i]).ip->0) == key;
            assert(0 <= i < n && net::ip_key(entries[i].ip->0) == key);
        }
        if net::ip_key(e.ip->0) == key {
            assert(0 <= n - 1 < n && net::ip_key(entries[n - 1].ip->0) == key);
        }
        if exists|i: int| 0 <= i < n && net::ip_key((#[trigger] entries[i]).ip->0) == key {
            let i = choose|i: int| 0 <= i < n && net::ip_key((#[trigger] entries[i]).ip->0) == key;
            if i < n - 1 {
                assert(0 <= i < n - 1 && net::ip_key(entries[i].ip->0) == key);
            }
        }
    }
}

/// A request counts once for its client, and as a transaction besides where it sends one; when the client
/// was last seen is noted, and nothing else changes.
pub proof fn law_request_counts_once(s: IpStats, is_send_tx: bool, now_ms: u64)
    requires
        s.total_rpc_requests < u64::MAX,
        s.rps_current < u64::MAX,
        s.total_tx_sends < u64::MAX,
        s.tps_current < u64::MAX,
    ensures
        ({
            let after = after_rpc(s, is_send_tx, now_ms);
            let one = if is_send_tx { 1int } else { 0 };
            &&& after.total_rpc_requests == s.total_rpc_requests + 1
            &&& after.rps_current == s.rps_current + 1
            &&& after.total_tx_sends == s.total_tx_sends + one
            &&& after.tps_current == s.tps_current + one
            &&& after.last_seen_epoch_ms == now_ms
            &&& after.active_rpc_conns == s.active_rpc_conns
            &&& after.active_ws_conns == s.active_ws_conns
            &&& after.active_grpc_streams == s.active_grpc_streams
            &&& after.active_arpc_streams == s.active_arpc_streams
            &&& after.total_ws_messages == s.total_ws_messages
            &&& after.total_grpc_requests == s.total_grpc_requests
            &&& after.total_arpc_requests == s.total_arpc_requests
            &&& after.rate_limited_count == s.rate_limited_count
            &&& after.error_count == s.error_count
        }),
{
}

/// An event counts once, in the counter of its kind and in no other.
pub proof fn law_event_counts_in_its_counter(s: IpStats, what: Tally)
    requires
        s.rate_limited_count < u64::MAX,
        s.error_count < u64::MAX,
        s.total_ws_messages < u64::MAX,
        s.total_grpc_requests < u64::MAX,
        s.total_arpc_requests < u64::MAX,
    ensures
        ({
            let after = after_tally(s, what);
            &&& after.rate_limited_count == s.rate_limited_count + if what == Tally::RateLimited { 1int } else { 0 }
            &&& after.error_count == s.error_count + if what == Tally::Error { 1int } else { 0 }
            &&& after.total_ws_messages == s.total_ws_messages + if what == Tally::WsMessage { 1int } else { 0 }
            &&& after.total_grpc_requests == s.total_grpc_requests + if what == Tally::GrpcRequest { 1int } else { 0 }
            &&& after.total_arpc_requests == s.total_arpc_requests + if what == Tally::ArpcRequest { 1int } else { 0 }
            &&& after.active_rpc_conns == s.active_rpc_conns
            &&& after.active_ws_conns == s.active_ws_conns
            &&& after.active_grpc_streams == s.active_grpc_streams
            &&& after.active_arpc_streams == s.active_arpc_streams
            &&& after.total_rpc_requests == s.total_rpc_requests
            &&& after.total_tx_sends == s.total_tx_sends
            &&& after.last_seen_epoch_ms == s.last_seen_epoch_ms
            &&& after.rps_current == s.rps_current
            &&& after.tps_current == s.tps_current
        }),
{
}

/// A connection counts while it lasts, in the counter of its kind and in no other.
pub proof fn law_connection_counts_in_its_counter(s: IpStats, conn: Conn)
    requires
        0 < s.active_rpc_conns < u64::MAX,
        0 < s.active_ws_conns < u64::MAX,
        0 < s.active_grpc_streams < u64::MAX,
        0 < s.active_arpc_streams < u64::MAX,
    ensures
        ({
            let begun = after_enter(s, conn);
            let ended = after_leave(s, conn);
            &&& begun.active_rpc_conns == s.active_rpc_conns + if conn == Conn::Rpc { 1int } else { 0 }
            &&& ended.active_rpc_conns == s.active_rpc_conns - if conn == Conn::Rpc { 1int } else { 0 }
            &&& conn == Conn::Rpc ==> active_of(s, conn) == s.active_rpc_conns
            &&& begun.active_ws_conns == s.active_ws_conns + if conn == Conn::Ws { 1int } else { 0 }
            &&& ended.active_ws_conns == s.active_ws_conns - if conn == Conn::Ws { 1int } else { 0 }
            &&& conn == Conn::Ws ==> active_of(s, conn) == s.active_ws_conns
            &&& begun.active_grpc_streams == s.active_grpc_streams + if conn == Conn::Grpc { 1int } else { 0 }
            &&& ended.active_grpc_streams == s.active_grpc_streams - if conn == Conn::Grpc { 1int } else { 0 }
            &&& conn == Conn::Grpc ==> active_of(s, conn) == s.active_grpc_streams
            &&& begun.active_arpc_streams == s.active_arpc_streams + if conn == Conn::Arpc { 1int } else { 0 }
            &&& ended.active_arpc_streams == s.active_arpc_streams - if conn == Conn::Arpc { 1int } else { 0 }
            &&& conn == Conn::Arpc ==> active_of(s, conn) == s.active_arpc_streams
            &&& begun.total_rpc_requests == s.total_rpc_requests && ended.total_rpc_requests == s.total_rpc_requests
            &&& begun.total_tx_sends == s.total_tx_sends && ended.total_tx_sends == s.total_tx_sends
            &&& begun.total_ws_messages == s.total_ws_messages && ended.total_ws_messages == s.total_ws_messages
            &&& begun.total_grpc_requests == s.total_grpc_requests && ended.total_grpc_requests == s.total_grpc_requests
            &&& begun.total_arpc_requests == s.total_arpc_requests && ended.total_arpc_requests == s.total_arpc_requests
            &&& begun.rate_limited_count == s.rate_limited_count && ended.rate_limited_count == s.rate_limited_count
            &&& begun.error_count == s.error_count && ended.error_count == s.error_count
            &&& begun.last_seen_epoch_ms == s.last_seen_epoch_ms && ended.last_seen_epoch_ms == s.last_seen_epoch_ms
            &&& begun.rps_current == s.rps_current && ended.rps_current == s.rps_current
            &&& begun.tps_current == s.tps_current && ended.tps_current == s.tps_current
        }),
{
}

/// At the end of a second the counters of that second begin anew; nothing else changes.
pub proof fn law_second_ends_only_its_own_counters(s: IpStats)
    ensures
        after_second(s).rps_current == 0,
        after_second(s).tps_current == 0,
        after_second(s) == (IpStats {
            rps_current: after_second(s).rps_current,
            tps_current: after_second(s).tps_current,
            ..s
        }),
{
}

/// What is shown of a client are its counters, each under its name.
pub proof fn law_snapshot_shows_every_counter(s: IpStats)
    ensures
        snapshot_of(s).active_rpc_conns == s.active_rpc_conns,
        snapshot_of(s).active_ws_conns == s.active_ws_conns,
        snapshot_of(s).active_grpc_streams == s.active_grpc_streams,
        snapshot_of(s).active_arpc_streams == s.active_arpc_streams,
        snapshot_of(s).total_rpc_requests == s.total_rpc_requests,
        snapshot_of(s).total_tx_sends == s.total_tx_sends,
        snapshot_of(s).total_ws_messages == s.total_ws_messages,
        snapshot_of(s).total_grpc_requests == s.total_grpc_requests,
        snapshot_of(s).total_arpc_requests == s.total_arpc_requests,
        snapshot_of(s).rate_limited_count == s.rate_limited_count,
        snapshot_of(s).error_count == s.error_count,
        snapshot_of(s).last_seen_epoch_ms == s.last_seen_epoch_ms,
        snapshot_of(s).rps_current == s.rps_current,
        snapshot_of(s).tps_current == s.tps_current,
{
}

/// Every client is shown once and nobody else is, with its counters.
pub proof fn law_every_client_is_shown(
    list: Seq<(IpAddr, IpStatsSnapshot)>,
    m: Map<IpKey, IpStats>,
    ip: IpAddr,
)
    requires
        shows(list, m),
    ensures
        m.contains_key(net::ip_key(ip)) <==> exists|i: int|
            0 <= i < list.len() && (#[trigger] list[i]).0 == ip,
        forall|i: int|
            0 <= i < list.len() && (#[trigger] list[i]).0 == ip ==> {
                let s = m[net::ip_key(ip)];
                &&& list[i].1.total_rpc_requests == s.total_rpc_requests
                &&& list[i].1.total_tx_sends == s.total_tx_sends
                &&& list[i].1.active_rpc_conns == s.active_rpc_conns
                &&& list[i].1.rate_limited_count == s.rate_limited_count
                &&& list[i].1.error_count == s.error_count
                &&& list[i].1.last_seen_epoch_ms == s.last_seen_epoch_ms
            },
        forall|i: int, j: int|
            0 <= i < list.len() && 0 <= j < list.len() && (#[trigger] list[i]).0 == ip
                && (#[trigger] list[j]).0 == ip ==> i == j,
{
    if m.contains_key(net::ip_key(ip)) {
        let i = choose|i: int|
            0 <= i < list.len() && net::ip_key((#[trigger] list[i]).0) == net::ip_key(ip);
        net::lemma_ip_key_injective(list[i].0, ip);
        assert(list[i].0 == ip);
    }
}

/// What is kept of a client are its totals, each under its name; put back, they are its totals again,
/// and what it does at the moment stays as it is.
pub proof fn law_totals_are_kept_and_put_back(s: IpStats, now: IpStats)
    ensures
        persisted(s).total_rpc_requests == s.total_rpc_requests,
        persisted(s).total_tx_sends == s.total_tx_sends,
        persisted(s).total_ws_messages == s.total_ws_messages,
        persisted(s).total_grpc_requests == s.total_grpc_requests,
        persisted(s).total_arpc_requests == s.total_arpc_requests,
        persisted(s).rate_limited_count == s.rate_limited_count,
        persisted(s).error_count == s.error_count,
        restored_one(now, persisted(s)).total_rpc_requests == s.total_rpc_requests,
        restored_one(now, persisted(s)).total_tx_sends == s.total_tx_sends,
        restored_one(now, persisted(s)).total_ws_messages == s.total_ws_messages,
        restored_one(now, persisted(s)).total_grpc_requests == s.total_grpc_requests,
        restored_one(now, persisted(s)).total_arpc_requests == s.total_arpc_requests,
        restored_one(now, persisted(s)).rate_limited_count == s.rate_limited_count,
        restored_one(now, persisted(s)).error_count == s.error_count,
        restored_one(now, persisted(s)).active_rpc_conns == now.active_rpc_conns,
        restored_one(now, persisted(s)).active_ws_conns == now.active_ws_conns,
        restored_one(now, persisted(s)).active_grpc_streams == now.active_grpc_streams,
        restored_one(now, persisted(s)).active_arpc_streams == now.active_arpc_streams,
        restored_one(now, persisted(s)).last_seen_epoch_ms == now.last_seen_epoch_ms,
        restored_one(now, persisted(s)).rps_current == now.rps_current,
        restored_one(now, persisted(s)).tps_current == now.tps_current,
{
}

/// A client that has not been seen begins with every counter at zero; one that has goes on from where it
/// stands.
pub proof fn law_unseen_client_begins_at_zero(m: Map<IpKey, IpStats>, key: IpKey)
    ensures
        m.contains_key(key) ==> stats_or_zero(m, key) == m[key],
        !m.contains_key(key) ==> {
            let s = stats_or_zero(m, key);
            &&& s.active_rpc_conns == 0
            &&& s.active_ws_conns == 0
            &&& s.active_grpc_streams == 0
            &&& s.active_arpc_streams == 0
            &&& s.total_rpc_requests == 0
            &&& s.total_tx_sends == 0
            &&& s.total_ws_messages == 0
            &&& s.total_grpc_requests == 0
            &&& s.total_arpc_requests == 0
            &&& s.rate_limited_count == 0
            &&& s.error_count == 0
            &&& s.last_seen_epoch_ms == 0
            &&& s.rps_current == 0
            &&& s.tps_current == 0
        },
{
}

/// What was kept of an address is put back for that address alone; an entry without an address changes
/// nothing.
pub proof fn law_entry_is_put_back_for_its_address(
    m: Map<IpKey, IpStats>,
    entries: Seq<PersistedEntry>,
    e: PersistedEntry,
    key: IpKey,
)
    ensures
        ({
            let before = restored(m, entries);
            let after = restored(m, entries.push(e));
            &&& e.ip is None ==> after == before
            &&& e.ip is Some && key != net::ip_key(e.ip->0) ==> {
                &&& after.contains_key(key) == before.contains_key(key)
                &&& before.contains_key(key) ==> after[key] == before[key]
            }
            &&& e.ip is Some && key == net::ip_key(e.ip->0) ==> {
                &&& after.contains_key(key)
                &&& persisted(after[key]) == e.stats
                &&& before.contains_key(key) ==> after[key].active_rpc_conns
                    == before[key].active_rpc_conns
            }
        }),
        restored(m, Seq::empty()) == m,
{
    assert(entries.push(e).drop_last() =~= entries);
}

/// What is shown in all are the counters in all, each under its name, and how many clients there are.
pub proof fn law_shown_in_all(s: Stats, uptime_secs: u64, r: GlobalStatsSnapshot)
    requires
        s.is_shown_in_all(uptime_secs, r),
    ensures
        r.uptime_secs == uptime_secs,
        r.total_requests == s.global_total_requests,
        r.global_rps == s.global_rps_current,
        r.global_tps == s.global_tps_current,
        r.connected_ips == s.by_ip().dom().len(),
{
}

/// A request counts once in all, as a transaction besides where it sends one, and once for its client;
/// no other client's counters change, nor those of the streams.
pub proof fn law_request_counts_in_all(
    before: Stats,
    after: Stats,
    ip: IpAddr,
    is_send_tx: bool,
    now_ms: u64,
)
    requires
        before.counted_request(after, ip, is_send_tx, now_ms),
        before.global_total_requests < u64::MAX,
        before.global_rps_current < u64::MAX,
        before.global_tps_current < u64::MAX,
        stats_or_zero(before.by_ip(), net::ip_key(ip)).total_rpc_requests < u64::MAX,
    ensures
        after.global_total_requests == before.global_total_requests + 1,
        after.global_rps_current == before.global_rps_current + 1,
        after.global_tps_current == before.global_tps_current + if is_send_tx { 1int } else { 0 },
        after.by_ip().contains_key(net::ip_key(ip)),
        after.by_ip()[net::ip_key(ip)].total_rpc_requests == stats_or_zero(
            before.by_ip(),
            net::ip_key(ip),
        ).total_rpc_requests + 1,
        others_unchanged(before.by_ip(), after.by_ip(), net::ip_key(ip)),
        after.supervisor == before.supervisor,
{
}

/// At the end of a second every client's counters of that second begin anew, and so do those in all; the
/// clients and their totals stay.
pub proof fn law_second_ends_for_everyone(before: Stats, after: Stats, key: IpKey)
    requires
        before.ended_second(after),
    ensures
        after.global_rps_current == 0,
        after.global_tps_current == 0,
        after.global_total_requests == before.global_total_requests,
        after.supervisor == before.supervisor,
        after.by_ip().contains_key(key) <==> before.by_ip().contains_key(key),
        before.by_ip().contains_key(key) ==> {
            let was = before.by_ip()[key];
            let is = after.by_ip()[key];
            &&& is.rps_current == 0
            &&& is.tps_current == 0
            &&& is.total_rpc_requests == was.total_rpc_requests
            &&& is.total_tx_sends == was.total_tx_sends
            &&& is.active_rpc_conns == was.active_rpc_conns
            &&& is.last_seen_epoch_ms == was.last_seen_epoch_ms
        },
{
}

/// A restart brings back the total in all and, for every client that was counted, its totals.
pub proof fn law_restart_keeps_the_totals(
    before: Stats,
    kept: PersistedStats,
    start: Stats,
    after: Stats,
    key: IpKey,
)
    requires
        before.is_kept(kept),
        start.is_put_back(after, kept),
        start.by_ip() == Map::<IpKey, IpStats>::empty(),
    ensures
        after.global_total_requests == before.global_total_requests,
        after.global_rps_current == start.global_rps_current,
        after.global_tps_current == start.global_tps_current,
        after.supervisor == start.supervisor,
        after.by_ip().contains_key(key) <==> before.by_ip().contains_key(key),
        before.by_ip().contains_key(key) ==> {
            let was = before.by_ip()[key];
            let is = after.by_ip()[key];
            &&& is.total_rpc_requests == was.total_rpc_requests
            &&& is.total_tx_sends == was.total_tx_sends
            &&& is.total_ws_messages == was.total_ws_messages
            &&& is.total_grpc_requests == was.total_grpc_requests
            &&& is.total_arpc_requests == was.total_arpc_requests
            &&& is.rate_limited_count == was.rate_limited_count
            &&& is.error_count == was.error_count
            &&& is.active_rpc_conns == 0
        },
{
    law_restore_returns_what_was_kept(kept.per_ip@, before.by_ip(), key);
    lemma_nothing_runs_after_a_restart(kept.per_ip@, key);
}

proof fn lemma_nothing_runs_after_a_restart(entries: Seq<PersistedEntry>, key: IpKey)
    ensures
        ({
            let m = restored(Map::<IpKey, IpStats>::empty(), entries);
            m.contains_key(key) ==> m[key].active_rpc_conns == 0
        }),
    decreases entries.len(),
{
    if entries.len() > 0 {
        lemma_nothing_runs_after_a_restart(entries.drop_last(), key);
    }
}

/// Where the counters in all are the sums over the clients, what one client adds is in them, and without
/// clients they are zero.
pub proof fn law_sums_are_over_the_clients(m: Map<IpKey, IpStats>, total: u64, rps: u64, tps: u64, k: IpKey)
    requires
        is_sum(m, total, rps, tps),
    ensures
        m.contains_key(k) ==> {
            &&& total == sum_over(m.remove(k), requests()) + m[k].total_rpc_requests
            &&& rps == sum_over(m.remove(k), recent_requests()) + m[k].rps_current
            &&& tps == sum_over(m.remove(k), recent_sends()) + m[k].tps_current
            &&& m[k].total_tx_sends <= m[k].total_rpc_requests
        },
        m == Map::<IpKey, IpStats>::empty() ==> total == 0 && rps == 0 && tps == 0,
{
    if m.contains_key(k) {
        lemma_sum_remove(m, k, requests());
        lemma_sum_remove(m, k, recent_requests());
        lemma_sum_remove(m, k, recent_sends());
    }
}

/// A connection that begins and ends leaves the counters as they were, whatever its kind.
pub proof fn law_leave_undoes_enter(s: IpStats, conn: Conn)
    ensures
        after_leave(after_enter(s, conn), conn) == s,
{
}

/// Beginning or ending a connection of one kind does not touch the count of another.
pub proof fn law_kinds_are_counted_apart(s: IpStats, a: Conn, b: Conn)
    ensures
        after_leave(after_enter(s, a), b) == after_enter(after_leave(s, b), a) || a == b,
{
}

/// The rolling window does not touch what is kept across restarts.
pub proof fn law_window_keeps_totals(s: IpStats)
    ensures
        persisted(after_second(s)) == persisted(s),
{
}

} // verus!
