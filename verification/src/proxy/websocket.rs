//! The WebSocket proxy: which connections are taken, and which messages count.

use crate::cluster::router;
use crate::cluster::router::Router;
use crate::cluster::NodeEntry;
use crate::middleware::rate_limiter;
use crate::net;
use crate::net::{IpAddr, IpKey};
use crate::proxy::gate::Gate;
use crate::stats;
use crate::stats::{Conn, IpStats, Tally};
use vstd::prelude::*;

verus! {

/// The kinds of messages on a connection.
#[derive(Debug, Clone, Copy, PartialEq, Eq, Structural)]
pub enum WsMessage {
    /// Text, binary or a raw frame.
    Data,
    Ping,
    Pong,
    Close,
}

/// What becomes of a connection.
pub enum WsDecision<'a> {
    /// It is dropped without a word.
    Ignore,
    /// It is served by this node.
    Serve(&'a NodeEntry),
    /// It fails with this error.
    Fail(String),
}

/// What becomes of a connection from an address on the whitelist, by what its limit on requests said.
pub open spec fn is_decision(
    before: Gate,
    after: Gate,
    nodes: Seq<NodeEntry>,
    ip: IpAddr,
    passed: bool,
    r: WsDecision,
) -> bool {
    match r {
        WsDecision::Ignore => {
            &&& !passed
            &&& after.stats.by_ip() == before.stats.by_ip().insert(
                net::ip_key(ip),
                stats::after_tally(
                    stats::stats_or_zero(before.stats.by_ip(), net::ip_key(ip)),
                    Tally::RateLimited,
                ),
            )
        },
        WsDecision::Serve(n) => {
            &&& passed
            &&& router::is_pick(nodes, router::healthy(), Some(*n))
            &&& after.stats.by_ip() == before.stats.by_ip()
        },
        WsDecision::Fail(e) => {
            &&& passed
            &&& router::is_pick(nodes, router::healthy(), None)
            &&& e@ == "No healthy nodes for WebSocket"@
            &&& after.stats.by_ip() == before.stats.by_ip()
        },
    }
}

/// What becomes of a connection from an address.
pub open spec fn took_connection(
    before: Gate,
    after: Gate,
    nodes: Seq<NodeEntry>,
    ip: IpAddr,
    r: WsDecision,
) -> bool {
    if before.whitelist@.contains(ip) {
        &&& after.rate_limiter.asked_by_ip(
            before.rate_limiter,
            ip,
            false,
            rate_limiter::by_rps(!(r is Ignore)),
        )
        &&& is_decision(before, after, nodes, ip, !(r is Ignore), r)
    } else {
        r is Ignore && after == before
    }
}

/// The counters once a connection has been accepted.
pub open spec fn after_accepted(m: Map<IpKey, IpStats>, ip: IpAddr) -> Map<IpKey, IpStats> {
    m.insert(
        net::ip_key(ip),
        stats::after_enter(stats::stats_or_zero(m, net::ip_key(ip)), Conn::Ws),
    )
}

/// The counters once a message of the upstream has come.
pub open spec fn after_message(m: Map<IpKey, IpStats>, ip: IpAddr, message: WsMessage) -> Map<
    IpKey,
    IpStats,
> {
    if message == WsMessage::Data {
        m.insert(
            net::ip_key(ip),
            stats::after_tally(stats::stats_or_zero(m, net::ip_key(ip)), Tally::WsMessage),
        )
    } else {
        m
    }
}

/// The counters once a connection has ended.
pub open spec fn after_closed(m: Map<IpKey, IpStats>, ip: IpAddr) -> Map<IpKey, IpStats> {
    m.insert(
        net::ip_key(ip),
        stats::after_leave(stats::stats_or_zero(m, net::ip_key(ip)), Conn::Ws),
    )
}

/// Takes what the limit on requests said of a connection from an address on the whitelist.
pub fn on_limit<'a>(
    gate: &mut Gate,
    router: &'a Router,
    ip: IpAddr,
    outcome: Result<(), ()>,
) -> (r: WsDecision<'a>)
    requires
        old(gate).wf(),
    ensures
        final(gate).wf(),
        final(gate).same_but_stats(*old(gate)),
        final(gate).stats.same_globals(old(gate).stats),
        is_decision(*old(gate), *final(gate), router.nodes@, ip, outcome is Ok, r),
{
    if outcome.is_err() {
        gate.stats.record_rate_limited(ip);
        return WsDecision::Ignore;
    }
    match router.pick_ws_node() {
        Some(n) => WsDecision::Serve(n),
        None => WsDecision::Fail("No healthy nodes for WebSocket".to_string()),
    }
}

/// What becomes of a connection from an address. An address that is not on the whitelist is
/// ignored and leaves no trace; whether the limit of another one is met depends on the time.
pub fn handle_connection<'a>(gate: &mut Gate, router: &'a Router, ip: IpAddr) -> (r: WsDecision<'a>)
    requires
        old(gate).wf(),
    ensures
        final(gate).wf(),
        final(gate).whitelist == old(gate).whitelist,
        final(gate).api_keys == old(gate).api_keys,
        final(gate).stats.same_globals(old(gate).stats),
        took_connection(*old(gate), *final(gate), router.nodes@, ip, r),
{
    if !gate.whitelist.is_allowed(&ip) {
        return WsDecision::Ignore;
    }
    let outcome = gate.rate_limiter.check_rps(&ip);
    on_limit(gate, router, ip, outcome)
}

/// Notes that a connection has been accepted.
pub fn on_accepted(gate: &mut Gate, ip: IpAddr)
    requires
        old(gate).wf(),
    ensures
        final(gate).wf(),
        final(gate).same_but_stats(*old(gate)),
        final(gate).stats.same_globals(old(gate).stats),
        final(gate).stats.by_ip() == after_accepted(old(gate).stats.by_ip(), ip),
{
    gate.stats.enter(ip, Conn::Ws);
}

/// Notes a message of the upstream: only data counts.
pub fn on_upstream_message(gate: &mut Gate, ip: IpAddr, message: WsMessage)
    requires
        old(gate).wf(),
    ensures
        final(gate).wf(),
        final(gate).same_but_stats(*old(gate)),
        final(gate).stats.same_globals(old(gate).stats),
        final(gate).stats.by_ip() == after_message(old(gate).stats.by_ip(), ip, message),
{
    if message == WsMessage::Data {
        gate.stats.record(ip, Tally::WsMessage);
    }
}

/// Notes that a connection has ended on either side.
pub fn on_closed(gate: &mut Gate, ip: IpAddr)
    requires
        old(gate).wf(),
    ensures
        final(gate).wf(),
        final(gate).same_but_stats(*old(gate)),
        final(gate).stats.same_globals(old(gate).stats),
        final(gate).stats.by_ip() == after_closed(old(gate).stats.by_ip(), ip),
{
    gate.stats.leave(ip, Conn::Ws);
}

/// An address that is not on the whitelist is ignored and leaves no trace. Any other asks its limit on
/// requests once, and is ignored exactly where that refuses, which counts as such. Where it does not, the
/// connection goes to the node that comes first by priority among those that are not down, and fails
/// only where all are.
pub proof fn law_connection_goes_to_a_node_that_is_up(
    before: Gate,
    after: Gate,
    nodes: Seq<NodeEntry>,
    ip: IpAddr,
    r: WsDecision,
)
    requires
        took_connection(before, after, nodes, ip, r),
        stats::stats_or_zero(before.stats.by_ip(), net::ip_key(ip)).rate_limited_count < u64::MAX,
    ensures
        !before.whitelist@.contains(ip) ==> r is Ignore && after == before,
        before.whitelist@.contains(ip) ==> {
            let was = stats::stats_or_zero(before.stats.by_ip(), net::ip_key(ip));
            let is = stats::stats_or_zero(after.stats.by_ip(), net::ip_key(ip));
            &&& after.rate_limiter.asked_by_ip(
                before.rate_limiter,
                ip,
                false,
                if r is Ignore {
                    Err(false)
                } else {
                    Ok(())
                },
            )
            &&& is.rate_limited_count == was.rate_limited_count + if r is Ignore { 1int } else { 0 }
            &&& is.active_ws_conns == was.active_ws_conns
            &&& is.total_ws_messages == was.total_ws_messages
            &&& stats::others_unchanged(
                before.stats.by_ip(),
                after.stats.by_ip(),
                net::ip_key(ip),
            )
        },
        r matches WsDecision::Serve(n) ==> {
            &&& n.health.status < 2
            &&& exists|i: int|
                {
                    &&& 0 <= i < nodes.len()
                    &&& #[trigger] nodes[i] == *n
                    &&& forall|j: int|
                        0 <= j < nodes.len() && (#[trigger] nodes[j]).health.status < 2
                            ==> nodes[i].config.priority < nodes[j].config.priority || (
                        nodes[i].config.priority == nodes[j].config.priority && i <= j)
                }
        },
        r is Fail ==> forall|j: int|
            0 <= j < nodes.len() ==> (#[trigger] nodes[j]).health.status >= 2,
{
    assert forall|n: NodeEntry| #[trigger] router::healthy()(n) <==> n.health.status < 2 by {
        router::law_who_may_be_chosen(Seq::empty(), n);
    }
    if let WsDecision::Serve(n) = r {
        router::law_pick_is_the_first_by_priority(nodes, router::healthy(), Some(*n));
    }
    if r is Fail {
        router::law_pick_is_the_first_by_priority(nodes, router::healthy(), None);
    }
}

/// A connection counts from when it is accepted until it ends, and of what the upstream sends only data
/// counts as a message. No other client's counters change.
pub proof fn law_only_data_counts(m: Map<IpKey, IpStats>, ip: IpAddr, message: WsMessage)
    requires
        ({
            let was = stats::stats_or_zero(m, net::ip_key(ip));
            0 < was.active_ws_conns < u64::MAX && was.total_ws_messages < u64::MAX
        }),
    ensures
        ({
            let k = net::ip_key(ip);
            let was = stats::stats_or_zero(m, k);
            let begun = stats::stats_or_zero(after_accepted(m, ip), k);
            let told = stats::stats_or_zero(after_message(m, ip, message), k);
            let ended = stats::stats_or_zero(after_closed(m, ip), k);
            &&& begun.active_ws_conns == was.active_ws_conns + 1
            &&& begun.total_ws_messages == was.total_ws_messages
            &&& ended.active_ws_conns == was.active_ws_conns - 1
            &&& ended.total_ws_messages == was.total_ws_messages
            &&& told.total_ws_messages == was.total_ws_messages + match message {
                WsMessage::Data => 1int,
                WsMessage::Ping => 0,
                WsMessage::Pong => 0,
                WsMessage::Close => 0,
            }
            &&& told.active_ws_conns == was.active_ws_conns
            &&& stats::others_unchanged(m, after_accepted(m, ip), k)
            &&& stats::others_unchanged(m, after_message(m, ip, message), k)
            &&& stats::others_unchanged(m, after_closed(m, ip), k)
        }),
{
}

} // verus!
