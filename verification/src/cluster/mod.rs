//! The upstream nodes: their health, and which of them serves a request.

pub mod grpc_pool;
pub mod health;
pub mod router;

use crate::cluster::grpc_pool::GrpcPool;
use crate::cluster::health::{CheckStep, HealthChecker, NodeHealth};
use crate::cluster::router::Router;
use crate::config;
use crate::config::{Config, NodeConfig};
use crate::text;
use vstd::prelude::*;

verus! {

/// A node: its configuration and what is known of it.
pub struct NodeEntry {
    pub config: NodeConfig,
    pub health: NodeHealth,
    /// The number by which the node's HTTP client is found.
    pub client: usize,
}

/// The nodes, how they are chosen, their channels, and how they are checked.
pub struct ClusterState {
    pub router: Router,
    pub grpc_pool: GrpcPool,
    pub health_checker: HealthChecker,
}

/// The entry is that of a node about which nothing is known yet.
pub open spec fn is_new_entry(n: NodeEntry, c: NodeConfig, position: int) -> bool {
    &&& n.config == c
    &&& n.client == position
    &&& n.health.node_id == c.id
    &&& n.health.status == 0
    &&& n.health.latency_ms == 0
    &&& n.health.last_slot == 0
    &&& n.health.last_seen_ms == 0
    &&& n.health.consecutive_failures == 0
    &&& n.health.consecutive_successes == 0
    &&& n.health.total_checks == 0
    &&& n.health.total_successes == 0
    &&& !n.health.iris_healthy
    &&& n.health.grpc_healthy
    &&& n.health.wins == 0
    &&& n.health.dupes == 0
    &&& n.health.last_msg_ms == 0
}

/// The ids of the nodes that serve gRPC.
pub open spec fn grpc_ids(c: Config) -> Seq<Seq<char>> {
    config::ids_in_regions(c.nodes@, c.routing.grpc_regions@)
}

/// Where every node has an id of its own, a node serves gRPC exactly where its region is one of the
/// configured ones, or none is configured.
pub proof fn law_grpc_stays_in_its_regions(c: Config, i: int)
    requires
        config::node_ids(c.nodes@).no_duplicates(),
        0 <= i < c.nodes@.len(),
    ensures
        grpc_ids(c).contains(c.nodes@[i].id@) <==> (c.routing.grpc_regions@.len() == 0
            || text::views(c.routing.grpc_regions@).contains(c.nodes@[i].region@)),
{
    let ids = config::node_ids(c.nodes@);
    let id = c.nodes@[i].id@;
    assert(ids[i] == id);
    if c.routing.grpc_regions@.len() > 0 {
        let ok = config::in_regions(c.routing.grpc_regions@);
        let kept = c.nodes@.filter(ok);
        broadcast use vstd::seq_lib::group_filter_ensures;
        if ok(c.nodes@[i]) {
            assert(kept.contains(c.nodes@[i]));
            let k = kept.index_of(c.nodes@[i]);
            assert(config::node_ids(kept)[k] == id);
        }
        if config::node_ids(kept).contains(id) {
            let k = config::node_ids(kept).index_of(id);
            assert(kept[k].id@ == id);
            assert(kept.contains(kept[k]));
            c.nodes@.lemma_filter_contains_rev(ok, kept[k]);
            let j = c.nodes@.index_of(kept[k]);
            assert(ids[j] == id);
        }
    }
}

/// The cluster is the one that a configuration describes.
pub open spec fn is_new_cluster(config: Config, s: ClusterState) -> bool {
    &&& s.router.nodes@.len() == config.nodes@.len()
    &&& forall|i: int|
        0 <= i < config.nodes@.len() ==> is_new_entry(
            #[trigger] s.router.nodes@[i],
            config.nodes@[i],
            i,
        )
    &&& text::views(s.router.send_tx_node_ids@) == config::target_ids(
        config.routing.send_tx_targets@,
        config.nodes@,
    )
    &&& text::views(s.router.grpc_node_ids@) == grpc_ids(config)
    &&& s.router.heavy_rpc_counter == 0
    &&& grpc_pool::is_new_pool(config.nodes@, s.router.grpc_node_ids@, s.grpc_pool)
    &&& s.health_checker.config == config.health
    &&& s.health_checker.step == CheckStep::Wait
}

/// A new cluster has the nodes of the configuration, in order, each up and its gRPC side with it, but not
/// its sender; reads begin with the first node, and the checks are those that are configured.
pub proof fn law_cluster_begins_as_configured(config: Config, s: ClusterState, i: int)
    requires
        is_new_cluster(config, s),
        0 <= i < config.nodes@.len(),
    ensures
        ({
            let n = s.router.nodes@[i];
            &&& s.router.nodes@.len() == config.nodes@.len()
            &&& n.config == config.nodes@[i]
            &&& n.client == i
            &&& n.health.node_id == config.nodes@[i].id
            &&& n.health.status == 0
            &&& n.health.grpc_healthy
            &&& !n.health.iris_healthy
            &&& n.health.consecutive_failures == 0
            &&& n.health.consecutive_successes == 0
            &&& n.health.total_checks == 0
            &&& n.health.last_slot == 0
            &&& n.health.wins == 0 && n.health.dupes == 0
        }),
        s.router.heavy_rpc_counter == 0,
        s.health_checker.config == config.health,
        s.health_checker.step == CheckStep::Wait,
        config.routing.grpc_regions@.len() == 0 ==> text::views(s.router.grpc_node_ids@).contains(
            config.nodes@[i].id@,
        ),
{
    if config.routing.grpc_regions@.len() == 0 {
        let ids = config::node_ids(config.nodes@);
        assert(ids[i] == config.nodes@[i].id@);
        assert(grpc_ids(config)[i] == config.nodes@[i].id@);
    }
}

impl ClusterState {
    /// The cluster that a configuration describes.
    pub fn new(config: &Config) -> (s: ClusterState)
        ensures
            s.grpc_pool.wf(),
            is_new_cluster(*config, s),
    {
        let mut nodes: Vec<NodeEntry> = Vec::new();
        let mut i: usize = 0;
        while i < config.nodes.len()
            invariant
                i <= config.nodes@.len(),
                nodes@.len() == i,
                forall|j: int|
                    0 <= j < i ==> is_new_entry(#[trigger] nodes@[j], config.nodes@[j], j),
            decreases config.nodes@.len() - i,
        {
            let c = config.nodes[i].clone();
            let health = NodeHealth::new(c.id.clone());
            nodes.push(NodeEntry { config: c, health, client: i });
            i = i + 1;
        }
        let grpc_eligible = config.get_grpc_eligible_node_ids();
        let grpc_pool = GrpcPool::new(&config.nodes, &grpc_eligible);
        let router = Router::new(nodes, config.get_send_tx_node_ids(), grpc_eligible);
        let health_checker = HealthChecker::new(config.health);
        ClusterState { router, grpc_pool, health_checker }
    }
}

} // verus!
