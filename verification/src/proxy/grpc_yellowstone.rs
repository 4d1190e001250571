//! The Yellowstone gRPC proxy: who may subscribe, and where a subscription is served from.

use crate::cluster::grpc_pool::GrpcPool;
use crate::cluster::router;
use crate::cluster::router::Router;
use crate::cluster::NodeEntry;
use crate::codec;
use crate::net;
use crate::net::IpAddr;
use crate::proxy::gate;
use crate::proxy::gate::Gate;
use crate::proxy::geyser::{SubscribeRequest, SubscribeUpdate, UpdateOneof};
use crate::proxy::grpc_filter;
use crate::proxy::grpc_filter::CompiledFilters;
use crate::proxy::grpc_mux;
use crate::proxy::grpc_mux::ChannelSource;
use crate::proxy::status::{GrpcCode, GrpcStatus};
use crate::stats;
use crate::stats::{Conn, Tally};
use crate::text;
use vstd::prelude::*;
use vstd::string::StringExecFns;

verus! {

/// Max concurrent gRPC streams per IP (replaces RPS rate limiting for gRPC)
pub const MAX_STREAMS_PER_IP: u64 = 500;

/// What a client's stream began with.
pub enum FirstMessage {
    Request(SubscribeRequest),
    /// Reading it failed.
    Failed(String),
    /// The stream was empty.
    Missing,
}

/// Where a subscription is served from.
pub enum Route {
    /// From an upstream of its own.
    Direct,
    /// From the shared stream, through these filters.
    Mux(CompiledFilters),
}

/// The message for a client with too many streams.
pub open spec fn too_many_streams(current: u64) -> Seq<char> {
    "Too many concurrent gRPC streams ("@ + text::decimal(current as nat) + "), max "@
        + text::decimal(MAX_STREAMS_PER_IP as nat)
}

/// The client's address, where it is known and the client may pass, or why it may not.
pub open spec fn has_access(
    gate: Gate,
    ip: Option<IpAddr>,
    key: Option<Seq<char>>,
    r: Result<IpAddr, GrpcStatus>,
) -> bool {
    match r {
        Ok(addr) => ip == Some(addr) && gate.lets_pass(addr, key),
        Err(s) => match ip {
            None => s.says(GrpcCode::Internal, "Cannot determine client IP"@),
            Some(addr) => {
                &&& !gate.lets_pass(addr, key)
                &&& s.says(GrpcCode::PermissionDenied, "Unauthorized"@)
            },
        },
    }
}

/// What becomes of a client that subscribes.
pub open spec fn is_subscribed(
    before: Gate,
    after: Gate,
    ip: Option<IpAddr>,
    key: Option<Seq<char>>,
    r: Result<IpAddr, GrpcStatus>,
) -> bool {
    let addr = ip->0;
    let counts = before.stats.by_ip();
    let was = stats::stats_or_zero(counts, net::ip_key(addr));
    match r {
        Ok(a) => {
            &&& ip == Some(a)
            &&& before.lets_pass(addr, key)
            &&& was.active_grpc_streams < MAX_STREAMS_PER_IP
            &&& after.stats.by_ip() == counts.insert(
                net::ip_key(addr),
                stats::after_tally(was, Tally::GrpcRequest),
            )
        },
        Err(s) => if ip is None {
            &&& s.says(GrpcCode::Internal, "Cannot determine client IP"@)
            &&& after.stats.by_ip() == counts
        } else if !before.lets_pass(addr, key) {
            &&& s.says(GrpcCode::PermissionDenied, "Unauthorized"@)
            &&& after.stats.by_ip() == counts
        } else {
            &&& was.active_grpc_streams >= MAX_STREAMS_PER_IP
            &&& s.says(GrpcCode::ResourceExhausted, too_many_streams(was.active_grpc_streams))
            &&& after.stats.by_ip() == counts.insert(net::ip_key(addr), was)
        },
    }
}

/// Where a subscription is served from, by the first message of the client.
pub open spec fn is_route(first: FirstMessage, r: Result<Route, GrpcStatus>) -> bool {
    match first {
        FirstMessage::Request(req) => match r {
            Ok(Route::Direct) => !mux_serves(req),
            Ok(Route::Mux(filters)) => {
                &&& mux_serves(req)
                &&& filters.wf()
                &&& grpc_filter::is_compiled_request(filters, req)
            },
            Err(_) => false,
        },
        FirstMessage::Failed(e) => r is Err && r->Err_0.says(
            GrpcCode::Internal,
            "Stream error: "@ + e@,
        ),
        FirstMessage::Missing => r is Err && r->Err_0.says(
            GrpcCode::InvalidArgument,
            "Empty subscribe stream"@,
        ),
    }
}

/// The pong that answers a message, where it is a ping.
pub open spec fn is_pong(ping: Option<i32>, r: Option<SubscribeUpdate>) -> bool {
    match r {
        Some(u) => {
            &&& ping is Some
            &&& u.filters@.len() == 0
            &&& u.update_oneof == Some(UpdateOneof::Pong { id: ping->0 })
        },
        None => ping is None,
    }
}

/// The upstream for a call of its own and how its channel is had, or why there is none.
pub open spec fn is_upstream(
    nodes: Seq<NodeEntry>,
    ids: Seq<String>,
    pool: GrpcPool,
    r: Result<(&NodeEntry, ChannelSource), GrpcStatus>,
) -> bool {
    match r {
        Ok((n, source)) => {
            &&& router::is_pick(nodes, router::listed_grpc_healthy(ids), Some(*n))
            &&& source == grpc_mux::source_for(pool, n.config.id@)
            &&& source == ChannelSource::Fresh ==> codec::endpoint_refusal(
                n.config.grpc_url@,
            ) is None
        },
        Err(s) => {
            ||| router::is_pick(nodes, router::listed_grpc_healthy(ids), None) && s.says(
                GrpcCode::Unavailable,
                "No healthy gRPC nodes"@,
            )
            ||| exists|n: NodeEntry|
                #![trigger n.config.grpc_url]
                router::is_pick(nodes, router::listed_grpc_healthy(ids), Some(n))
                    && grpc_mux::source_for(pool, n.config.id@) == ChannelSource::Fresh
                    && is_url_refusal(s, codec::endpoint_refusal(n.config.grpc_url@))
        },
    }
}

/// The client's address, where it is known and the client may pass.
pub fn check_access(gate: &Gate, ip: Option<IpAddr>, key: Option<&str>) -> (r: Result<
    IpAddr,
    GrpcStatus,
>)
    requires
        gate.wf(),
    ensures
        has_access(*gate, ip, gate::key_view(key), r),
{
    match ip {
        None => Err(GrpcStatus::new(GrpcCode::Internal, "Cannot determine client IP")),
        Some(addr) => {
            if gate.key_in_use(key) || gate.whitelist.is_allowed(&addr) {
                Ok(addr)
            } else {
                Err(GrpcStatus::new(GrpcCode::PermissionDenied, "Unauthorized"))
            }
        },
    }
}

/// Lets a client subscribe, and counts the request, or refuses it: where the client is not known or
/// may not pass, or where it has too many streams already.
pub fn subscribe(gate: &mut Gate, ip: Option<IpAddr>, key: Option<&str>) -> (r: Result<
    IpAddr,
    GrpcStatus,
>)
    requires
        old(gate).wf(),
    ensures
        final(gate).wf(),
        final(gate).same_but_stats(*old(gate)),
        final(gate).stats.same_globals(old(gate).stats),
        is_subscribed(*old(gate), *final(gate), ip, gate::key_view(key), r),
{
    let addr = match check_access(gate, ip, key) {
        Ok(a) => a,
        Err(s) => {
            return Err(s);
        },
    };
    let ghost before = gate.stats.by_ip();
    let ip_stats = gate.stats.get_or_create(addr);
    let current: u64 = ip_stats.active(Conn::Grpc);
    if current >= MAX_STREAMS_PER_IP {
        let mut s = "Too many concurrent gRPC streams (".to_string();
        text::push_decimal(&mut s, current);
        s.append("), max ");
        text::push_decimal(&mut s, MAX_STREAMS_PER_IP);
        return Err(GrpcStatus::of(GrpcCode::ResourceExhausted, s));
    }
    gate.stats.record(addr, Tally::GrpcRequest);
    proof {
        let was = stats::stats_or_zero(before, net::ip_key(addr));
        assert(gate.stats.by_ip() =~= before.insert(
            net::ip_key(addr),
            stats::after_tally(was, Tally::GrpcRequest),
        ));
    }
    Ok(addr)
}

/// The shared stream can serve all that a request asks for, and it asks for something.
pub open spec fn mux_serves(req: SubscribeRequest) -> bool {
    &&& req.accounts.entries@.len() == 0
    &&& req.blocks@.len() == 0
    &&& req.transactions_status@.len() == 0
    &&& (req.transactions.names().len() > 0 || req.slots.names().len() > 0
        || req.blocks_meta@.len() > 0 || req.entry@.len() > 0)
}

/// Where a subscription is served from, by the first message of the client.
pub fn route(first: &FirstMessage) -> (r: Result<Route, GrpcStatus>)
    requires
        first matches FirstMessage::Request(req) ==> req.wf(),
    ensures
        is_route(*first, r),
{
    match first {
        FirstMessage::Request(req) => {
            let filters = CompiledFilters::from_request(req);
            if filters.needs_direct_connection() || !filters.has_mux_subscriptions() {
                Ok(Route::Direct)
            } else {
                Ok(Route::Mux(filters))
            }
        },
        FirstMessage::Failed(e) => Err(
            GrpcStatus::of(GrpcCode::Internal, text::concat("Stream error: ", e.as_str())),
        ),
        FirstMessage::Missing => Err(
            GrpcStatus::new(GrpcCode::InvalidArgument, "Empty subscribe stream"),
        ),
    }
}

/// The pong that answers a later message of a client on the shared stream, where it is a ping;
/// everything else in it is ignored.
pub fn pong_for(msg: &SubscribeRequest) -> (r: Option<SubscribeUpdate>)
    ensures
        is_pong(msg.ping, r),
{
    match msg.ping {
        Some(id) => Some(
            SubscribeUpdate { filters: Vec::new(), update_oneof: Some(UpdateOneof::Pong { id }) },
        ),
        None => None,
    }
}

/// What is said of a URL that was refused with the given error.
pub open spec fn is_url_refusal(s: GrpcStatus, refusal: Option<Seq<char>>) -> bool {
    refusal is Some && s.says(GrpcCode::Internal, "Invalid URL: "@ + refusal->0)
}

/// What is said of a URL that was refused with the given error.
pub fn url_refused(refusal: Option<String>) -> (r: Result<(), GrpcStatus>)
    ensures
        match r {
            Ok(_) => refusal is None,
            Err(s) => is_url_refusal(s, text::opt_view(refusal)),
        },
{
    match refusal {
        None => Ok(()),
        Some(e) => Err(GrpcStatus::of(GrpcCode::Internal, text::concat("Invalid URL: ", e.as_str()))),
    }
}

/// Whether a channel can be made for a URL.
pub fn check_endpoint(url: &str) -> (r: Result<(), GrpcStatus>)
    ensures
        match r {
            Ok(_) => codec::endpoint_refusal(url@) is None,
            Err(s) => is_url_refusal(s, codec::endpoint_refusal(url@)),
        },
{
    url_refused(codec::endpoint_error(url))
}

/// What is said where connecting to an upstream failed.
pub fn connect_failed(error: &str) -> (s: GrpcStatus)
    ensures
        s.says(GrpcCode::Unavailable, "Connect failed: "@ + error@),
{
    GrpcStatus::of(GrpcCode::Unavailable, text::concat("Connect failed: ", error))
}

/// The upstream for a call of its own, and how its channel is had.
pub fn get_upstream<'a>(router: &'a Router, pool: &GrpcPool) -> (r: Result<
    (&'a NodeEntry, ChannelSource),
    GrpcStatus,
>)
    requires
        pool.wf(),
    ensures
        is_upstream(router.nodes@, router.grpc_node_ids@, *pool, r),
{
    match router.pick_grpc_node() {
        None => Err(GrpcStatus::new(GrpcCode::Unavailable, "No healthy gRPC nodes")),
        Some(n) => {
            let source = grpc_mux::channel_source(pool, n.config.id.as_str());
            if source == ChannelSource::Fresh {
                if let Err(s) = check_endpoint(n.config.grpc_url.as_str()) {
                    assert(is_url_refusal(s, codec::endpoint_refusal(n.config.grpc_url@)));
                    return Err(s);
                }
            }
            Ok((n, source))
        },
    }
}

/// A client that is let subscribe has at most as many streams as it may when the new one is counted.
pub proof fn law_stream_let_in_fits(s: stats::IpStats)
    requires
        s.active_grpc_streams < MAX_STREAMS_PER_IP,
    ensures
        stats::after_enter(stats::after_tally(s, Tally::GrpcRequest), Conn::Grpc).active_grpc_streams
            <= MAX_STREAMS_PER_IP,
{
}

/// A client whose address is known passes exactly where it is on the whitelist or its key is in use.
pub proof fn law_access_is_by_address_or_key(
    gate: Gate,
    ip: Option<IpAddr>,
    key: Option<Seq<char>>,
    r: Result<IpAddr, GrpcStatus>,
)
    requires
        has_access(gate, ip, key, r),
    ensures
        r is Ok <==> ip is Some && (gate.whitelist@.contains(ip->0) || (key is Some
            && gate.api_keys@.contains_key(key->0))),
        r is Ok ==> r->Ok_0 == ip->0,
        r is Err ==> r->Err_0.code == if ip is None {
            GrpcCode::Internal
        } else {
            GrpcCode::PermissionDenied
        },
{
}

/// A client that may pass subscribes exactly where it has fewer than five hundred streams, whatever its
/// limits on requests; only then does it count as a request. One with too many is told how many it has.
pub proof fn law_only_the_number_of_streams_is_limited(
    before: Gate,
    after: Gate,
    ip: IpAddr,
    key: Option<Seq<char>>,
    r: Result<IpAddr, GrpcStatus>,
)
    requires
        is_subscribed(before, after, Some(ip), key, r),
        stats::stats_or_zero(before.stats.by_ip(), net::ip_key(ip)).total_grpc_requests < u64::MAX,
    ensures
        ({
            let was = stats::stats_or_zero(before.stats.by_ip(), net::ip_key(ip));
            let is = stats::stats_or_zero(after.stats.by_ip(), net::ip_key(ip));
            let may_pass = before.whitelist@.contains(ip) || (key is Some
                && before.api_keys@.contains_key(key->0));
            &&& r is Ok <==> may_pass && was.active_grpc_streams < 500
            &&& r is Ok ==> r->Ok_0 == ip
            &&& is.total_grpc_requests == was.total_grpc_requests + if r is Ok { 1int } else { 0 }
            &&& is.active_grpc_streams == was.active_grpc_streams
            &&& is.rate_limited_count == was.rate_limited_count
            &&& is.error_count == was.error_count
            &&& r is Err ==> r->Err_0.code == if may_pass {
                GrpcCode::ResourceExhausted
            } else {
                GrpcCode::PermissionDenied
            }
            &&& r is Err && may_pass ==> r->Err_0.message@
                == "Too many concurrent gRPC streams ("@ + text::decimal(
                was.active_grpc_streams as nat,
            ) + "), max "@ + text::decimal(500)
            &&& stats::others_unchanged(
                before.stats.by_ip(),
                after.stats.by_ip(),
                net::ip_key(ip),
            )
        }),
{
}

/// A client whose address is not known is refused, and nothing is counted.
pub proof fn law_unknown_address_is_refused(
    before: Gate,
    after: Gate,
    key: Option<Seq<char>>,
    r: Result<IpAddr, GrpcStatus>,
)
    requires
        is_subscribed(before, after, None, key, r),
    ensures
        r is Err,
        r->Err_0.code == GrpcCode::Internal,
        after.stats.by_ip() == before.stats.by_ip(),
{
}

/// A subscription is served from the shared stream exactly where it asks for transactions, slots, block
/// metadata or entries and for nothing else; and then with filters that say what it asked for. A stream
/// that failed or was empty is refused, each with its own code.
pub proof fn law_shared_stream_serves_only_what_it_carries(
    first: FirstMessage,
    r: Result<Route, GrpcStatus>,
)
    requires
        is_route(first, r),
    ensures
        r is Ok <==> first is Request,
        first matches FirstMessage::Request(req) ==> {
            let foreign = req.accounts.entries@.len() > 0 || req.blocks@.len() > 0
                || req.transactions_status@.len() > 0;
            let carried = req.transactions.entries@.len() > 0 || req.slots.entries@.len() > 0
                || req.blocks_meta@.len() > 0 || req.entry@.len() > 0;
            &&& r->Ok_0 is Mux <==> carried && !foreign
            &&& r->Ok_0 matches Route::Mux(filters) ==> grpc_filter::is_compiled_request(
                filters,
                req,
            )
        },
        first is Failed ==> r->Err_0.code == GrpcCode::Internal,
        first is Missing ==> r->Err_0.code == GrpcCode::InvalidArgument,
{
    if let FirstMessage::Request(req) = first {
        assert(req.transactions.names().len() == req.transactions.entries@.len());
        assert(req.slots.names().len() == req.slots.entries@.len());
    }
}

/// A ping is answered by a pong with its own number and under no filter, and nothing else is answered.
pub proof fn law_pong_has_the_number_of_the_ping(ping: Option<i32>, r: Option<SubscribeUpdate>)
    requires
        is_pong(ping, r),
    ensures
        r is Some <==> ping is Some,
        r matches Some(u) ==> u.filters@.len() == 0 && u.update_oneof == Some(
            UpdateOneof::Pong { id: ping->0 },
        ),
{
}

/// The upstream is listed for gRPC, is not down, and its gRPC side answers; no node of which that holds
/// has a lower priority. Its channel comes from the pool exactly where that has one, and a URL is looked
/// at only where it has not.
pub proof fn law_channel_of_the_pool_comes_first(
    nodes: Seq<NodeEntry>,
    ids: Seq<String>,
    pool: GrpcPool,
    r: Result<(&NodeEntry, ChannelSource), GrpcStatus>,
)
    requires
        is_upstream(nodes, ids, pool, r),
    ensures
        r matches Ok((n, source)) ==> {
            &&& exists|i: int| 0 <= i < ids.len() && (#[trigger] ids[i])@ == n.config.id@
            &&& n.health.status < 2
            &&& n.health.grpc_healthy
            &&& source == ChannelSource::Pool <==> pool.channels@.contains_key(n.config.id@)
            &&& source == ChannelSource::Fresh ==> codec::endpoint_refusal(
                n.config.grpc_url@,
            ) is None
            &&& forall|j: int|
                0 <= j < nodes.len() && router::listed(ids)(#[trigger] nodes[j])
                    && nodes[j].health.status < 2 && nodes[j].health.grpc_healthy
                    ==> n.config.priority <= nodes[j].config.priority
        },
        r is Err && r->Err_0.code == GrpcCode::Unavailable ==> forall|j: int|
            0 <= j < nodes.len() && router::listed(ids)(#[trigger] nodes[j])
                && nodes[j].health.status < 2 ==> !nodes[j].health.grpc_healthy,
        r is Err && r->Err_0.code != GrpcCode::Unavailable ==> exists|j: int|
            0 <= j < nodes.len() && codec::endpoint_refusal(
                (#[trigger] nodes[j]).config.grpc_url@,
            ) is Some && !pool.channels@.contains_key(nodes[j].config.id@),
{
    let ok = router::listed_grpc_healthy(ids);
    assert forall|n: NodeEntry| #[trigger]
        ok(n) <==> router::listed(ids)(n) && n.health.status < 2 && n.health.grpc_healthy by {
        router::law_who_may_be_chosen(ids, n);
    }
    match r {
        Ok((n, _)) => {
            router::law_pick_is_the_first_by_priority(nodes, ok, Some(*n));
            router::law_who_may_be_chosen(ids, *n);
        },
        Err(s) => {
            if s.code == GrpcCode::Unavailable {
                router::law_pick_is_the_first_by_priority(nodes, ok, None);
            } else {
                let n = choose|n: NodeEntry|
                    #![trigger n.config.grpc_url]
                    router::is_pick(nodes, ok, Some(n)) && grpc_mux::source_for(
                        pool,
                        n.config.id@,
                    ) == ChannelSource::Fresh && is_url_refusal(
                        s,
                        codec::endpoint_refusal(n.config.grpc_url@),
                    );
                router::law_pick_is_the_first_by_priority(nodes, ok, Some(n));
            }
        },
    }
}

} // verus!
