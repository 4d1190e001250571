//! The aRPC proxies, of both versions: who may subscribe, and to which upstream they are sent.

use crate::cluster::router;
use crate::cluster::router::Router;
use crate::cluster::NodeEntry;
use crate::codec;
use crate::middleware::rate_limiter;
use crate::net;
use crate::net::IpAddr;
use crate::proxy::gate;
use crate::proxy::gate::Gate;
use crate::proxy::grpc_yellowstone;
use crate::proxy::status::{GrpcCode, GrpcStatus};
use crate::stats;
use crate::stats::Tally;
use crate::text;
use vstd::prelude::*;

verus! {

/// The versions of the protocol.
#[derive(Debug, Clone, Copy, PartialEq, Eq, Structural)]
pub enum ArpcVersion {
    V1,
    V2,
}

/// The message where no upstream is there.
pub open spec fn no_nodes(version: ArpcVersion) -> Seq<char> {
    match version {
        ArpcVersion::V1 => "No healthy aRPC nodes"@,
        ArpcVersion::V2 => "No healthy aRPC v2 nodes"@,
    }
}

/// The message where connecting failed.
pub open spec fn connect_error(version: ArpcVersion, error: Seq<char>) -> Seq<char> {
    match version {
        ArpcVersion::V1 => "aRPC connect failed: "@ + error,
        ArpcVersion::V2 => "aRPC v2 connect failed: "@ + error,
    }
}

/// What becomes of a client from the whitelist without a key in use, by what its limit on requests said.
pub open spec fn is_let_in(
    before: Gate,
    after: Gate,
    ip: IpAddr,
    passed: bool,
    r: Result<(), GrpcStatus>,
) -> bool {
    match r {
        Ok(_) => passed && after.stats.by_ip() == before.stats.by_ip(),
        Err(s) => {
            &&& !passed
            &&& s.says(GrpcCode::ResourceExhausted, "Rate limit exceeded"@)
            &&& after.stats.by_ip() == before.stats.by_ip().insert(
                net::ip_key(ip),
                stats::after_tally(
                    stats::stats_or_zero(before.stats.by_ip(), net::ip_key(ip)),
                    Tally::RateLimited,
                ),
            )
        },
    }
}

/// What becomes of a client.
pub open spec fn has_access(
    before: Gate,
    after: Gate,
    ip: IpAddr,
    key: Option<Seq<char>>,
    r: Result<(), GrpcStatus>,
) -> bool {
    if before.holds_key(key) {
        r is Ok && after == before
    } else if before.whitelist@.contains(ip) {
        &&& after.rate_limiter.asked_by_ip(
            before.rate_limiter,
            ip,
            false,
            rate_limiter::by_rps(r is Ok),
        )
        &&& is_let_in(before, after, ip, r is Ok, r)
    } else {
        &&& r is Err
        &&& r->Err_0.says(GrpcCode::PermissionDenied, "Unauthorized"@)
        &&& after == before
    }
}

/// What becomes of a client that subscribes.
pub open spec fn is_subscribed(
    before: Gate,
    after: Gate,
    version: ArpcVersion,
    ip: Option<IpAddr>,
    key: Option<Seq<char>>,
    r: Result<IpAddr, GrpcStatus>,
) -> bool {
    &&& ip is Some && before.holds_key(key) ==> r is Ok && after.rate_limiter
        == before.rate_limiter
    &&& ip is Some && before.whitelist@.contains(ip->0) && !before.holds_key(key)
        ==> after.rate_limiter.asked_by_ip(
        before.rate_limiter,
        ip->0,
        false,
        rate_limiter::by_rps(r is Ok),
    )
    &&& match r {
        Ok(addr) => {
            let was = stats::stats_or_zero(before.stats.by_ip(), net::ip_key(addr));
            &&& ip == Some(addr)
            &&& before.lets_pass(addr, key)
            &&& after.stats.by_ip() == before.stats.by_ip().insert(
                net::ip_key(addr),
                match version {
                    ArpcVersion::V1 => stats::after_tally(was, Tally::ArpcRequest),
                    ArpcVersion::V2 => was,
                },
            )
        },
        Err(s) => match ip {
            None => {
                &&& s.says(GrpcCode::Internal, "Cannot determine client IP"@)
                &&& after == before
            },
            Some(addr) => if before.lets_pass(addr, key) {
                &&& s.says(GrpcCode::ResourceExhausted, "Rate limit exceeded"@)
                &&& after.stats.by_ip() == before.stats.by_ip().insert(
                    net::ip_key(addr),
                    stats::after_tally(
                        stats::stats_or_zero(before.stats.by_ip(), net::ip_key(addr)),
                        Tally::RateLimited,
                    ),
                )
            } else {
                &&& s.says(GrpcCode::PermissionDenied, "Unauthorized"@)
                &&& after == before
            },
        },
    }
}

/// The upstream for a call, or why there is none.
pub open spec fn is_upstream(
    nodes: Seq<NodeEntry>,
    ids: Seq<String>,
    version: ArpcVersion,
    r: Result<&NodeEntry, GrpcStatus>,
) -> bool {
    match r {
        Ok(n) => {
            &&& router::is_pick(nodes, router::listed_grpc_healthy(ids), Some(*n))
            &&& codec::endpoint_refusal(n.config.arpc_url@) is None
        },
        Err(s) => {
            ||| router::is_pick(nodes, router::listed_grpc_healthy(ids), None) && s.says(
                GrpcCode::Unavailable,
                no_nodes(version),
            )
            ||| exists|n: NodeEntry|
                #![trigger n.config.arpc_url]
                router::is_pick(nodes, router::listed_grpc_healthy(ids), Some(n))
                    && grpc_yellowstone::is_url_refusal(
                    s,
                    codec::endpoint_refusal(n.config.arpc_url@),
                )
        },
    }
}

/// Takes what the limit on requests said of a client from the whitelist without a key in use.
pub fn on_limit(gate: &mut Gate, ip: IpAddr, outcome: Result<(), ()>) -> (r: Result<(), GrpcStatus>)
    requires
        old(gate).wf(),
    ensures
        final(gate).wf(),
        final(gate).same_but_stats(*old(gate)),
        final(gate).stats.same_globals(old(gate).stats),
        is_let_in(*old(gate), *final(gate), ip, outcome is Ok, r),
{
    if outcome.is_err() {
        gate.stats.record_rate_limited(ip);
        return Err(GrpcStatus::new(GrpcCode::ResourceExhausted, "Rate limit exceeded"));
    }
    Ok(())
}

/// Lets a client through: with a key in use always, from the whitelist where its limit on requests
/// allows it, which depends on the time, and else never.
pub fn check_access(gate: &mut Gate, ip: IpAddr, key: Option<&str>) -> (r: Result<(), GrpcStatus>)
    requires
        old(gate).wf(),
    ensures
        final(gate).wf(),
        final(gate).whitelist == old(gate).whitelist,
        final(gate).api_keys == old(gate).api_keys,
        final(gate).stats.same_globals(old(gate).stats),
        has_access(*old(gate), *final(gate), ip, gate::key_view(key), r),
{
    if gate.key_in_use(key) {
        return Ok(());
    }
    if !gate.whitelist.is_allowed(&ip) {
        return Err(GrpcStatus::new(GrpcCode::PermissionDenied, "Unauthorized"));
    }
    let outcome = gate.rate_limiter.check_rps(&ip);
    on_limit(gate, ip, outcome)
}

/// Lets a client subscribe whose address is known, or refuses it. The requests of the first version
/// are counted.
pub fn subscribe(gate: &mut Gate, version: ArpcVersion, ip: Option<IpAddr>, key: Option<&str>) -> (
    r: Result<IpAddr, GrpcStatus>)
    requires
        old(gate).wf(),
    ensures
        final(gate).wf(),
        final(gate).whitelist == old(gate).whitelist,
        final(gate).api_keys == old(gate).api_keys,
        final(gate).stats.same_globals(old(gate).stats),
        is_subscribed(*old(gate), *final(gate), version, ip, gate::key_view(key), r),
{
    let addr = match ip {
        Some(a) => a,
        None => {
            return Err(GrpcStatus::new(GrpcCode::Internal, "Cannot determine client IP"));
        },
    };
    match check_access(gate, addr, key) {
        Err(s) => Err(s),
        Ok(_) => {
            match version {
                ArpcVersion::V1 => {
                    gate.stats.record(addr, Tally::ArpcRequest);
                },
                ArpcVersion::V2 => {
                    let _s = gate.stats.get_or_create(addr);
                },
            }
            Ok(addr)
        },
    }
}

/// What is said where connecting to an upstream failed.
pub fn connect_failed(version: ArpcVersion, error: &str) -> (s: GrpcStatus)
    ensures
        s.says(GrpcCode::Unavailable, connect_error(version, error@)),
{
    let prefix = match version {
        ArpcVersion::V1 => "aRPC connect failed: ",
        ArpcVersion::V2 => "aRPC v2 connect failed: ",
    };
    GrpcStatus::of(GrpcCode::Unavailable, text::concat(prefix, error))
}

/// The upstream for a call: a channel to its aRPC side is always made anew.
pub fn get_upstream<'a>(router: &'a Router, version: ArpcVersion) -> (r: Result<
    &'a NodeEntry,
    GrpcStatus,
>)
    ensures
        is_upstream(router.nodes@, router.grpc_node_ids@, version, r),
{
    match router.pick_grpc_node() {
        None => {
            let message = match version {
                ArpcVersion::V1 => "No healthy aRPC nodes",
                ArpcVersion::V2 => "No healthy aRPC v2 nodes",
            };
            Err(GrpcStatus::new(GrpcCode::Unavailable, message))
        },
        Some(n) => match grpc_yellowstone::check_endpoint(n.config.arpc_url.as_str()) {
            Ok(_) => Ok(n),
            Err(s) => {
                assert(grpc_yellowstone::is_url_refusal(
                    s,
                    codec::endpoint_refusal(n.config.arpc_url@),
                ));
                Err(s)
            },
        },
    }
}

/// A client with a key in use subscribes whatever its address, and its limit is not asked. One without
/// asks the limit on requests of its address where that is on the whitelist, and subscribes exactly where
/// it passes; else it is refused and leaves no trace. Of those that subscribe, only those to the first
/// version count; of those that are refused, only those that met their limit.
pub proof fn law_key_is_not_limited(
    before: Gate,
    after: Gate,
    version: ArpcVersion,
    ip: IpAddr,
    key: Option<Seq<char>>,
    r: Result<IpAddr, GrpcStatus>,
)
    requires
        is_subscribed(before, after, version, Some(ip), key, r),
        ({
            let was = stats::stats_or_zero(before.stats.by_ip(), net::ip_key(ip));
            was.total_arpc_requests < u64::MAX && was.rate_limited_count < u64::MAX
        }),
    ensures
        ({
            let was = stats::stats_or_zero(before.stats.by_ip(), net::ip_key(ip));
            let is = stats::stats_or_zero(after.stats.by_ip(), net::ip_key(ip));
            let by_key = key is Some && before.api_keys@.contains_key(key->0);
            let by_ip = before.whitelist@.contains(ip);
            &&& r is Ok ==> r->Ok_0 == ip
            &&& by_key ==> r is Ok && after.rate_limiter == before.rate_limiter
            &&& !by_key && by_ip ==> {
                &&& after.rate_limiter.asked_by_ip(
                    before.rate_limiter,
                    ip,
                    false,
                    if r is Ok {
                        Ok(())
                    } else {
                        Err(false)
                    },
                )
                &&& r is Err ==> r->Err_0.code == GrpcCode::ResourceExhausted
            }
            &&& !by_key && !by_ip ==> {
                &&& r is Err
                &&& r->Err_0.code == GrpcCode::PermissionDenied
                &&& after == before
            }
            &&& is.total_arpc_requests == was.total_arpc_requests + if r is Ok && version
                == ArpcVersion::V1 {
                1int
            } else {
                0
            }
            &&& is.rate_limited_count == was.rate_limited_count + if r is Err && by_ip {
                1int
            } else {
                0
            }
            &&& is.total_grpc_requests == was.total_grpc_requests
            &&& is.active_arpc_streams == was.active_arpc_streams
            &&& stats::others_unchanged(
                before.stats.by_ip(),
                after.stats.by_ip(),
                net::ip_key(ip),
            )
        }),
{
}

/// A client is let in on the same terms before it is known to what it subscribes.
pub proof fn law_access_is_by_key_or_limit(
    before: Gate,
    after: Gate,
    ip: IpAddr,
    key: Option<Seq<char>>,
    r: Result<(), GrpcStatus>,
)
    requires
        has_access(before, after, ip, key, r),
        stats::stats_or_zero(before.stats.by_ip(), net::ip_key(ip)).rate_limited_count < u64::MAX,
    ensures
        ({
            let was = stats::stats_or_zero(before.stats.by_ip(), net::ip_key(ip));
            let is = stats::stats_or_zero(after.stats.by_ip(), net::ip_key(ip));
            let by_key = key is Some && before.api_keys@.contains_key(key->0);
            let by_ip = before.whitelist@.contains(ip);
            &&& by_key ==> r is Ok && after == before
            &&& !by_key && !by_ip ==> r is Err && r->Err_0.code == GrpcCode::PermissionDenied
                && after == before
            &&& r is Err && by_ip ==> r->Err_0.code == GrpcCode::ResourceExhausted
            &&& !by_key && by_ip ==> {
                &&& after.rate_limiter.asked_by_ip(
                    before.rate_limiter,
                    ip,
                    false,
                    if r is Ok {
                        Ok(())
                    } else {
                        Err(false)
                    },
                )
                &&& is.rate_limited_count == was.rate_limited_count + if r is Err {
                    1int
                } else {
                    0
                }
            }
        }),
{
}

/// A client whose address is not known is refused and leaves no trace.
pub proof fn law_client_without_an_address_is_refused(
    before: Gate,
    after: Gate,
    version: ArpcVersion,
    key: Option<Seq<char>>,
    r: Result<IpAddr, GrpcStatus>,
)
    requires
        is_subscribed(before, after, version, None, key, r),
    ensures
        r is Err,
        r->Err_0.code == GrpcCode::Internal,
        after == before,
{
}

/// The upstream is listed for gRPC, is not down, and its gRPC side answers; no node of which that holds
/// has a lower priority. A call fails only where there is none, or where the aRPC side of the one that is
/// picked cannot be called.
pub proof fn law_upstream_can_serve(
    nodes: Seq<NodeEntry>,
    ids: Seq<String>,
    version: ArpcVersion,
    r: Result<&NodeEntry, GrpcStatus>,
)
    requires
        is_upstream(nodes, ids, version, r),
    ensures
        r matches Ok(n) ==> {
            &&& exists|i: int| 0 <= i < ids.len() && (#[trigger] ids[i])@ == n.config.id@
            &&& n.health.status < 2
            &&& n.health.grpc_healthy
            &&& codec::endpoint_refusal(n.config.arpc_url@) is None
            &&& forall|j: int|
                0 <= j < nodes.len() && router::listed(ids)(#[trigger] nodes[j])
                    && nodes[j].health.status < 2 && nodes[j].health.grpc_healthy
                    ==> n.config.priority <= nodes[j].config.priority
        },
        r is Err && r->Err_0.code == GrpcCode::Unavailable ==> forall|j: int|
            0 <= j < nodes.len() && router::listed(ids)(#[trigger] nodes[j])
                && nodes[j].health.status < 2 ==> !nodes[j].health.grpc_healthy,
        r is Err && r->Err_0.code != GrpcCode::Unavailable ==> exists|j: int|
            0 <= j < nodes.len() && codec::endpoint_refusal(
                (#[trigger] nodes[j]).config.arpc_url@,
            ) is Some,
{
    let ok = router::listed_grpc_healthy(ids);
    assert forall|n: NodeEntry| #[trigger]
        ok(n) <==> router::listed(ids)(n) && n.health.status < 2 && n.health.grpc_healthy by {
        router::law_who_may_be_chosen(ids, n);
    }
    match r {
        Ok(n) => {
            router::law_pick_is_the_first_by_priority(nodes, ok, Some(*n));
            router::law_who_may_be_chosen(ids, *n);
        },
        Err(s) => {
            if s.code == GrpcCode::Unavailable {
                router::law_pick_is_the_first_by_priority(nodes, ok, None);
            } else {
                let n = choose|n: NodeEntry|
                    #![trigger n.config.arpc_url]
                    router::is_pick(nodes, ok, Some(n)) && grpc_yellowstone::is_url_refusal(
                        s,
                        codec::endpoint_refusal(n.config.arpc_url@),
                    );
                router::law_pick_is_the_first_by_priority(nodes, ok, Some(n));
            }
        },
    }
}

/// What is said names the version only of the second, and a failure to connect carries its error.
pub proof fn law_failure_carries_its_error(version: ArpcVersion, error: Seq<char>)
    ensures
        connect_error(version, error).len() >= error.len(),
        connect_error(version, error).skip(connect_error(version, error).len() - error.len())
            == error,
        connect_error(ArpcVersion::V2, error).len() == connect_error(ArpcVersion::V1, error).len()
            + 3,
        no_nodes(ArpcVersion::V2).len() == no_nodes(ArpcVersion::V1).len() + 3,
{
    reveal_strlit("aRPC connect failed: ");
    reveal_strlit("aRPC v2 connect failed: ");
    reveal_strlit("No healthy aRPC nodes");
    reveal_strlit("No healthy aRPC v2 nodes");
    let t = connect_error(version, error);
    assert(t.skip(t.len() - error.len()) =~= error);
}

} // verus!
