//! The health of each node, and the rounds of checks that keep it up to date.

use crate::cluster::NodeEntry;
use crate::codec;
use crate::config::HealthConfig;
use vstd::prelude::*;

verus! {

/// A node that answers slower than this, in milliseconds, is degraded.
pub const SLOW_MS: u64 = 500;

/// A node whose slot is further behind the highest than this is degraded.
pub const MAX_SLOT_LAG: u64 = 5;

/// How a node fares.
#[derive(Debug, Clone, Copy, PartialEq, Eq, Structural)]
pub enum NodeStatus {
    Healthy,
    Degraded,
    Down,
}

/// The status that a stored code stands for.
pub open spec fn status_of(code: u8) -> NodeStatus {
    if code == 0 {
        NodeStatus::Healthy
    } else if code == 1 {
        NodeStatus::Degraded
    } else {
        NodeStatus::Down
    }
}

impl NodeStatus {
    /// The code that is stored for a status.
    pub open spec fn spec_code(self) -> u8 {
        match self {
            NodeStatus::Healthy => 0,
            NodeStatus::Degraded => 1,
            NodeStatus::Down => 2,
        }
    }

    /// The code that is stored for the status; [`NodeStatus::from_u8`] reads it back.
    pub fn code(self) -> (r: u8)
        ensures
            r == self.spec_code(),
            status_of(r) == self,
    {
        match self {
            NodeStatus::Healthy => 0,
            NodeStatus::Degraded => 1,
            NodeStatus::Down => 2,
        }
    }

    /// The status that a stored code stands for; an unknown code counts as down.
    pub fn from_u8(v: u8) -> (r: NodeStatus)
        ensures
            r == status_of(v),
    {
        match v {
            0 => NodeStatus::Healthy,
            1 => NodeStatus::Degraded,
            _ => NodeStatus::Down,
        }
    }

    /// The name of the status.
    pub open spec fn name(self) -> Seq<char> {
        match self {
            NodeStatus::Healthy => "healthy"@,
            NodeStatus::Degraded => "degraded"@,
            NodeStatus::Down => "down"@,
        }
    }

    /// The name of the status.
    pub fn as_str(&self) -> (r: &'static str)
        ensures
            r@ == self.name(),
    {
        match self {
            NodeStatus::Healthy => "healthy",
            NodeStatus::Degraded => "degraded",
            NodeStatus::Down => "down",
        }
    }
}

/// What is known of one node.
#[derive(Debug)]
pub struct NodeHealth {
    pub node_id: String,
    /// The code of a [`NodeStatus`].
    pub status: u8,
    pub latency_ms: u64,
    pub last_slot: u64,
    pub last_seen_ms: u64,
    pub consecutive_failures: u32,
    pub consecutive_successes: u32,
    pub total_checks: u64,
    pub total_successes: u64,
    pub iris_healthy: bool,
    pub grpc_healthy: bool,
    /// Multi-region mux: messages where this region delivered first (raced and won)
    pub wins: u64,
    /// Multi-region mux: messages this region delivered late (already seen)
    pub dupes: u64,
    /// Wall-clock ms (UNIX epoch) of last gRPC stream message from this region
    pub last_msg_ms: u64,
}

/// What came of asking a node something.
pub enum Probe<T> {
    /// No answer within the time allowed.
    TimedOut,
    /// The attempt ended in an error.
    Failed,
    /// The node answered.
    Answered(T),
}

/// What a check has to report besides the new health.
#[derive(Debug, Clone, Copy, PartialEq, Eq, Structural)]
pub enum HealthNotice {
    Nothing,
    /// The node was down and is up again.
    Recovered,
    /// The node was not down and is now, after this many failures in a row.
    WentDown { failures: u32 },
}

/// The status code after a check that was answered.
pub open spec fn status_after_answer(
    status: u8,
    successes: u32,
    latency_ms: u64,
    healthy_threshold: u32,
) -> u8 {
    let up = if status_of(status) != NodeStatus::Healthy && successes >= healthy_threshold {
        NodeStatus::Healthy.spec_code()
    } else {
        status
    };
    if latency_ms > SLOW_MS && status_of(up) == NodeStatus::Healthy {
        NodeStatus::Degraded.spec_code()
    } else {
        up
    }
}

/// The status code after a check that was not answered.
pub open spec fn status_after_failure(status: u8, failures: u32, unhealthy_threshold: u32) -> u8 {
    if failures >= unhealthy_threshold {
        NodeStatus::Down.spec_code()
    } else {
        status
    }
}

/// The health after a check that was answered.
pub open spec fn after_answer(
    h: NodeHealth,
    latency_ms: u64,
    slot: u64,
    now_ms: u64,
    config: HealthConfig,
) -> NodeHealth {
    let successes = h.consecutive_successes.wrapping_add(1);
    NodeHealth {
        latency_ms,
        last_slot: slot,
        last_seen_ms: now_ms,
        consecutive_failures: 0,
        consecutive_successes: successes,
        total_checks: h.total_checks.wrapping_add(1),
        total_successes: h.total_successes.wrapping_add(1),
        status: status_after_answer(h.status, successes, latency_ms, config.healthy_threshold),
        ..h
    }
}

/// The health after a check that was not answered.
pub open spec fn after_failure(h: NodeHealth, config: HealthConfig) -> NodeHealth {
    let failures = h.consecutive_failures.wrapping_add(1);
    NodeHealth {
        consecutive_successes: 0,
        consecutive_failures: failures,
        total_checks: h.total_checks.wrapping_add(1),
        status: status_after_failure(h.status, failures, config.unhealthy_threshold),
        ..h
    }
}

/// The health after an RPC check, whatever came of it.
pub open spec fn after_rpc_probe(
    h: NodeHealth,
    probe: Probe<(u64, u64)>,
    now_ms: u64,
    config: HealthConfig,
) -> NodeHealth {
    match probe {
        Probe::Answered((latency_ms, slot)) => after_answer(h, latency_ms, slot, now_ms, config),
        _ => after_failure(h, config),
    }
}

/// What an RPC check has to report.
pub open spec fn notice_of(
    h: NodeHealth,
    probe: Probe<(u64, u64)>,
    config: HealthConfig,
) -> HealthNotice {
    let down = status_of(h.status) == NodeStatus::Down;
    match probe {
        Probe::Answered(_) => if down && h.consecutive_successes.wrapping_add(1)
            >= config.healthy_threshold {
            HealthNotice::Recovered
        } else {
            HealthNotice::Nothing
        },
        _ => {
            let failures = h.consecutive_failures.wrapping_add(1);
            if failures >= config.unhealthy_threshold && !down {
                HealthNotice::WentDown { failures }
            } else {
                HealthNotice::Nothing
            }
        },
    }
}

/// The health after the slots of all nodes have been compared.
pub open spec fn after_drift(h: NodeHealth, max_slot: u64) -> NodeHealth {
    if max_slot > 0 && h.last_slot > 0 && max_slot > h.last_slot + MAX_SLOT_LAG && status_of(
        h.status,
    ) == NodeStatus::Healthy {
        NodeHealth { status: NodeStatus::Degraded.spec_code(), ..h }
    } else {
        h
    }
}

/// What is known of a node at the beginning.
pub open spec fn first_health(node_id: String) -> NodeHealth {
    NodeHealth {
        node_id,
        status: 0,
        latency_ms: 0,
        last_slot: 0,
        last_seen_ms: 0,
        consecutive_failures: 0,
        consecutive_successes: 0,
        total_checks: 0,
        total_successes: 0,
        iris_healthy: false,
        grpc_healthy: true,
        wins: 0,
        dupes: 0,
        last_msg_ms: 0,
    }
}

/// The health after a node's transaction sender was asked.
pub open spec fn after_iris_probe(h: NodeHealth, probe: Probe<bool>) -> NodeHealth {
    NodeHealth { iris_healthy: probe == Probe::Answered(true), ..h }
}

/// The health after a node's gRPC side was pinged.
pub open spec fn after_grpc_probe(h: NodeHealth, probe: Probe<()>) -> NodeHealth {
    NodeHealth { grpc_healthy: probe is Answered, ..h }
}

impl NodeHealth {
    /// Whether the node may be chosen: it is not down.
    pub open spec fn spec_healthy(self) -> bool {
        status_of(self.status) != NodeStatus::Down
    }

    /// A node about which nothing is known yet counts as healthy.
    pub fn new(node_id: String) -> (h: NodeHealth)
        ensures
            h == first_health(node_id),
    {
        NodeHealth {
            node_id,
            status: NodeStatus::Healthy.code(),
            latency_ms: 0,
            last_slot: 0,
            last_seen_ms: 0,
            consecutive_failures: 0,
            consecutive_successes: 0,
            total_checks: 0,
            total_successes: 0,
            iris_healthy: false,
            grpc_healthy: true,
            wins: 0,
            dupes: 0,
            last_msg_ms: 0,
        }
    }

    /// Whether the node may be chosen: it is not down.
    pub fn is_healthy(&self) -> (r: bool)
        ensures
            r == self.spec_healthy(),
    {
        self.get_status() != NodeStatus::Down
    }

    /// The status.
    pub fn get_status(&self) -> (r: NodeStatus)
        ensures
            r == status_of(self.status),
    {
        NodeStatus::from_u8(self.status)
    }

    /// Notes a check that was answered; the status stays as it is.
    pub fn record_success(&mut self, latency_ms: u64, slot: u64, now_ms: u64)
        ensures
            *final(self) == (NodeHealth {
                latency_ms,
                last_slot: slot,
                last_seen_ms: now_ms,
                consecutive_failures: 0,
                consecutive_successes: old(self).consecutive_successes.wrapping_add(1),
                total_checks: old(self).total_checks.wrapping_add(1),
                total_successes: old(self).total_successes.wrapping_add(1),
                ..*old(self)
            }),
    {
        self.latency_ms = latency_ms;
        self.last_slot = slot;
        self.last_seen_ms = now_ms;
        self.consecutive_failures = 0;
        self.consecutive_successes = self.consecutive_successes.wrapping_add(1);
        self.total_checks = self.total_checks.wrapping_add(1);
        self.total_successes = self.total_successes.wrapping_add(1);
    }

    /// Notes a check that was not answered; the status stays as it is.
    pub fn record_failure(&mut self)
        ensures
            *final(self) == (NodeHealth {
                consecutive_successes: 0,
                consecutive_failures: old(self).consecutive_failures.wrapping_add(1),
                total_checks: old(self).total_checks.wrapping_add(1),
                ..*old(self)
            }),
    {
        self.consecutive_successes = 0;
        self.consecutive_failures = self.consecutive_failures.wrapping_add(1);
        self.total_checks = self.total_checks.wrapping_add(1);
    }

    /// Notes what came of an RPC check, and moves the status accordingly.
    pub fn observe_rpc(
        &mut self,
        probe: &Probe<(u64, u64)>,
        now_ms: u64,
        config: &HealthConfig,
    ) -> (notice: HealthNotice)
        ensures
            *final(self) == after_rpc_probe(*old(self), *probe, now_ms, *config),
            notice == notice_of(*old(self), *probe, *config),
    {
        match probe {
            Probe::Answered((latency_ms, slot)) => {
                self.record_success(*latency_ms, *slot, now_ms);
                let successes: u32 = self.consecutive_successes;
                let was = self.get_status();
                let mut notice = HealthNotice::Nothing;
                if was != NodeStatus::Healthy && successes >= config.healthy_threshold {
                    self.status = NodeStatus::Healthy.code();
                    if was == NodeStatus::Down {
                        notice = HealthNotice::Recovered;
                    }
                }
                if *latency_ms > SLOW_MS && self.get_status() == NodeStatus::Healthy {
                    self.status = NodeStatus::Degraded.code();
                }
                notice
            },
            _ => {
                self.record_failure();
                let failures: u32 = self.consecutive_failures;
                let mut notice = HealthNotice::Nothing;
                if failures >= config.unhealthy_threshold {
                    if self.get_status() != NodeStatus::Down {
                        notice = HealthNotice::WentDown { failures };
                    }
                    self.status = NodeStatus::Down.code();
                }
                notice
            },
        }
    }

    /// Notes what came of asking the node's transaction sender: only a success counts.
    pub fn observe_iris(&mut self, probe: &Probe<bool>)
        ensures
            *final(self) == after_iris_probe(*old(self), *probe),
    {
        self.iris_healthy = match probe {
            Probe::Answered(ok) => *ok,
            _ => false,
        };
    }

    /// Notes what came of a gRPC ping: any answer counts.
    pub fn observe_grpc(&mut self, probe: &Probe<()>)
        ensures
            *final(self) == after_grpc_probe(*old(self), *probe),
    {
        self.grpc_healthy = match probe {
            Probe::Answered(_) => true,
            _ => false,
        };
    }

    /// Degrades the node where its slot is too far behind the highest one.
    pub fn observe_drift(&mut self, max_slot: u64)
        ensures
            *final(self) == after_drift(*old(self), max_slot),
    {
        if max_slot > 0 && self.last_slot > 0 && max_slot > MAX_SLOT_LAG && max_slot - MAX_SLOT_LAG
            > self.last_slot && self.get_status() == NodeStatus::Healthy {
            self.status = NodeStatus::Degraded.code();
        }
    }

    /// Notes that a stream message of the node was the first of its kind.
    pub fn record_win(&mut self)
        ensures
            *final(self) == (NodeHealth { wins: old(self).wins.wrapping_add(1), ..*old(self) }),
    {
        self.wins = self.wins.wrapping_add(1);
    }

    /// Notes that a stream message of the node had been delivered before.
    pub fn record_dupe(&mut self)
        ensures
            *final(self) == (NodeHealth { dupes: old(self).dupes.wrapping_add(1), ..*old(self) }),
    {
        self.dupes = self.dupes.wrapping_add(1);
    }

    /// Notes when the last stream message came.
    pub fn record_message(&mut self, now_ms: u64)
        ensures
            *final(self) == (NodeHealth { last_msg_ms: now_ms, ..*old(self) }),
    {
        self.last_msg_ms = now_ms;
    }
}

/// The body of the request that asks a node for its slot.
pub fn slot_request_body() -> (r: &'static str)
    ensures
        r@ == "{\"id\":1,\"jsonrpc\":\"2.0\",\"method\":\"getSlot\"}"@,
{
    "{\"id\":1,\"jsonrpc\":\"2.0\",\"method\":\"getSlot\"}"
}

/// The body of the request that asks a transaction sender for its health.
pub fn iris_request_body() -> (r: &'static str)
    ensures
        r@ == "{\"id\":1,\"jsonrpc\":\"2.0\",\"method\":\"health\"}"@,
{
    "{\"id\":1,\"jsonrpc\":\"2.0\",\"method\":\"health\"}"
}

/// The slot that a parsed reply gives: zero where the document has no such number.
pub open spec fn slot_given(parsed: Option<Option<u64>>) -> Option<u64> {
    match parsed {
        Some(Some(slot)) => Some(slot),
        Some(None) => Some(0),
        None => None,
    }
}

/// The slot that a parsed reply gives: zero where the document has no such number, and nothing
/// where there is no document.
pub fn slot_from(parsed: Option<Option<u64>>) -> (r: Option<u64>)
    ensures
        r == slot_given(parsed),
{
    match parsed {
        Some(Some(slot)) => Some(slot),
        Some(None) => Some(0),
        None => None,
    }
}

/// The slot that the body of a reply gives.
pub open spec fn slot_in(body: Seq<u8>) -> Option<u64> {
    slot_given(codec::json_u64(body, "result"@))
}

/// The slot that the body of a reply gives.
pub fn slot_of_reply(body: &[u8]) -> (r: Option<u64>)
    ensures
        r == slot_in(body@),
{
    slot_from(codec::json_u64_member(body, "result"))
}

/// What the checker waits for.
#[derive(Debug, Clone, Copy, PartialEq, Eq, Structural)]
pub enum CheckStep {
    /// The next round.
    Wait,
    /// The slot of a node.
    Rpc { node: usize },
    /// The health of a node's transaction sender.
    Iris { node: usize },
    /// A gRPC ping of a node.
    Grpc { node: usize },
}

/// What the checker is told.
#[allow(inconsistent_fields)]
pub enum CheckEvent {
    /// It is time for a round.
    Tick,
    /// A node's latency in milliseconds and its slot, and the time of the answer.
    Rpc { probe: Probe<(u64, u64)>, now_ms: u64 },
    Iris { probe: Probe<bool> },
    Grpc { probe: Probe<()> },
}

/// Checks every node in turn, round after round.
pub struct HealthChecker {
    pub config: HealthConfig,
    pub step: CheckStep,
    /// The highest slot of this round.
    pub max_slot: u64,
}

/// The step that begins the checks of a node, or ends the round behind the last node.
pub open spec fn step_for(node: int, nodes: Seq<NodeEntry>) -> CheckStep {
    if node < nodes.len() {
        CheckStep::Rpc { node: node as usize }
    } else {
        CheckStep::Wait
    }
}

/// The step after a node's transaction sender was asked or passed over.
pub open spec fn step_past_iris(node: int, nodes: Seq<NodeEntry>) -> CheckStep {
    if nodes[node].config.grpc_url@.len() > 0 {
        CheckStep::Grpc { node: node as usize }
    } else {
        step_for(node + 1, nodes)
    }
}

/// The step after a node's slot was asked for.
pub open spec fn step_past_rpc(node: int, nodes: Seq<NodeEntry>) -> CheckStep {
    if nodes[node].config.iris_url is Some {
        CheckStep::Iris { node: node as usize }
    } else {
        step_past_iris(node, nodes)
    }
}

/// The step that follows, by the configuration of the nodes alone.
pub open spec fn step_after(step: CheckStep, nodes: Seq<NodeEntry>) -> CheckStep {
    match step {
        CheckStep::Wait => step_for(0, nodes),
        CheckStep::Rpc { node } => step_past_rpc(node as int, nodes),
        CheckStep::Iris { node } => step_past_iris(node as int, nodes),
        CheckStep::Grpc { node } => step_for(node + 1, nodes),
    }
}

/// The event is the answer to the step.
pub open spec fn answers(step: CheckStep, event: CheckEvent, nodes: Seq<NodeEntry>) -> bool {
    match (step, event) {
        (CheckStep::Wait, CheckEvent::Tick) => true,
        (CheckStep::Rpc { node }, CheckEvent::Rpc { .. }) => node < nodes.len(),
        (CheckStep::Iris { node }, CheckEvent::Iris { .. }) => node < nodes.len(),
        (CheckStep::Grpc { node }, CheckEvent::Grpc { .. }) => node < nodes.len(),
        _ => false,
    }
}

/// The nodes after an answer, before slots are compared.
pub open spec fn nodes_after_answer(
    step: CheckStep,
    event: CheckEvent,
    nodes: Seq<NodeEntry>,
    config: HealthConfig,
) -> Seq<NodeEntry> {
    match (step, event) {
        (CheckStep::Rpc { node }, CheckEvent::Rpc { probe, now_ms }) => nodes.update(
            node as int,
            NodeEntry {
                health: after_rpc_probe(nodes[node as int].health, probe, now_ms, config),
                ..nodes[node as int]
            },
        ),
        (CheckStep::Iris { node }, CheckEvent::Iris { probe }) => nodes.update(
            node as int,
            NodeEntry {
                health: after_iris_probe(nodes[node as int].health, probe),
                ..nodes[node as int]
            },
        ),
        (CheckStep::Grpc { node }, CheckEvent::Grpc { probe }) => nodes.update(
            node as int,
            NodeEntry {
                health: after_grpc_probe(nodes[node as int].health, probe),
                ..nodes[node as int]
            },
        ),
        _ => nodes,
    }
}

/// The highest slot of the round after an answer.
pub open spec fn max_after_answer(event: CheckEvent, max_slot: u64) -> u64 {
    match event {
        CheckEvent::Tick => 0,
        CheckEvent::Rpc { probe: Probe::Answered((_, slot)), .. } => if slot > max_slot {
            slot
        } else {
            max_slot
        },
        _ => max_slot,
    }
}

/// The nodes after their slots were compared with the highest.
pub open spec fn drifted(nodes: Seq<NodeEntry>, max_slot: u64) -> Seq<NodeEntry> {
    nodes.map_values(
        |n: NodeEntry| NodeEntry { health: after_drift(n.health, max_slot), ..n },
    )
}

/// The nodes after an answer; where it ends a round, their slots have been compared.
pub open spec fn nodes_after(
    step: CheckStep,
    event: CheckEvent,
    nodes: Seq<NodeEntry>,
    config: HealthConfig,
    max_slot: u64,
) -> Seq<NodeEntry> {
    let answered = nodes_after_answer(step, event, nodes, config);
    if event is Tick || step_after(step, nodes) != CheckStep::Wait {
        answered
    } else {
        drifted(answered, max_after_answer(event, max_slot))
    }
}

/// What an answer has to report.
pub open spec fn notice_after(
    step: CheckStep,
    event: CheckEvent,
    nodes: Seq<NodeEntry>,
    config: HealthConfig,
) -> HealthNotice {
    match (step, event) {
        (CheckStep::Rpc { node }, CheckEvent::Rpc { probe, .. }) => notice_of(
            nodes[node as int].health,
            probe,
            config,
        ),
        _ => HealthNotice::Nothing,
    }
}

/// Seconds between rounds.
pub open spec fn round_secs(config: HealthConfig) -> u64 {
    if config.check_interval_secs > 1 {
        config.check_interval_secs
    } else {
        1
    }
}

/// Compares the slots of all nodes with the highest, and degrades those that lag.
pub fn compare_slots(nodes: &mut Vec<NodeEntry>, max_slot: u64)
    ensures
        final(nodes)@ == drifted(old(nodes)@, max_slot),
{
    let ghost before = nodes@;
    let mut i: usize = 0;
    let count: usize = nodes.len();
    while i < count
        invariant
            i <= count,
            count == before.len(),
            nodes@.len() == before.len(),
            forall|j: int|
                0 <= j < i ==> #[trigger] nodes@[j] == (NodeEntry {
                    health: after_drift(before[j].health, max_slot),
                    ..before[j]
                }),
            forall|j: int| i <= j < before.len() ==> #[trigger] nodes@[j] == before[j],
        decreases count - i,
    {
        nodes[i].health.observe_drift(max_slot);
        i = i + 1;
    }
    assert(nodes@ =~= drifted(before, max_slot));
}

/// A status is stored as a code of its own, and read back as it was; what is no such code is read as
/// down.
pub proof fn law_codes_tell_statuses_apart(code: u8, status: NodeStatus, h: NodeHealth)
    ensures
        status_of(status.spec_code()) == status,
        status_of(code) == NodeStatus::Healthy <==> code == 0,
        status_of(code) == NodeStatus::Degraded <==> code == 1,
        h.spec_healthy() <==> h.status < 2,
        code == 0 ==> status_of(code).name() == "healthy"@,
        code == 1 ==> status_of(code).name() == "degraded"@,
        code >= 2 ==> status_of(code).name() == "down"@,
{
}

/// Of a node that has not been asked yet it is taken that it is up, and so its gRPC side, but not its
/// transaction sender.
pub proof fn law_unknown_node_is_up(node_id: String)
    ensures
        first_health(node_id).node_id == node_id,
        first_health(node_id).status == 0,
        first_health(node_id).grpc_healthy,
        !first_health(node_id).iris_healthy,
        first_health(node_id).consecutive_failures == 0,
        first_health(node_id).consecutive_successes == 0,
        first_health(node_id).last_slot == 0,
        first_health(node_id).total_checks == first_health(node_id).total_successes == 0,
        first_health(node_id).wins == first_health(node_id).dupes == 0,
{
}

/// After an answer that took more than half a second a node is never healthy, whatever it was before:
/// where it is up, it is degraded. After a faster one it is healthy once the answers in a row are
/// enough, and else it is what it was.
pub proof fn law_slow_answer_degrades(
    h: NodeHealth,
    latency_ms: u64,
    slot: u64,
    now_ms: u64,
    config: HealthConfig,
)
    requires
        h.consecutive_successes < u32::MAX,
    ensures
        ({
            let after = after_rpc_probe(h, Probe::Answered((latency_ms, slot)), now_ms, config);
            let enough = h.consecutive_successes + 1 >= config.healthy_threshold;
            &&& latency_ms > 500 ==> after.status != 0
            &&& latency_ms > 500 && (h.status < 2 || enough) ==> after.status == 1
            &&& latency_ms <= 500 && enough ==> after.status == 0
            &&& h.status != 0 && !enough ==> after.status == h.status
            &&& latency_ms <= 500 && h.status == 0 ==> after.status == 0
        }),
{
}

/// An answer is noted with its latency, its slot and its time; it ends a row of failures, and counts as
/// a check and as a success.
pub proof fn law_answer_is_noted(
    h: NodeHealth,
    latency_ms: u64,
    slot: u64,
    now_ms: u64,
    config: HealthConfig,
)
    requires
        h.consecutive_successes < u32::MAX,
        h.total_checks < u64::MAX,
        h.total_successes < u64::MAX,
    ensures
        ({
            let after = after_rpc_probe(h, Probe::Answered((latency_ms, slot)), now_ms, config);
            &&& after.latency_ms == latency_ms
            &&& after.last_slot == slot
            &&& after.last_seen_ms == now_ms
            &&& after.consecutive_failures == 0
            &&& after.consecutive_successes == h.consecutive_successes + 1
            &&& after.total_checks == h.total_checks + 1
            &&& after.total_successes == h.total_successes + 1
            &&& after.node_id == h.node_id
            &&& after.iris_healthy == h.iris_healthy
            &&& after.grpc_healthy == h.grpc_healthy
            &&& after.wins == h.wins && after.dupes == h.dupes && after.last_msg_ms == h.last_msg_ms
        }),
{
}

/// A check without an answer ends a row of successes and counts as a check, but not as a success; it
/// does not matter why there was no answer, and what was known of the last one stays.
pub proof fn law_failure_is_noted(
    h: NodeHealth,
    probe: Probe<(u64, u64)>,
    now_ms: u64,
    config: HealthConfig,
)
    requires
        !(probe is Answered),
        h.consecutive_failures < u32::MAX,
        h.total_checks < u64::MAX,
    ensures
        ({
            let after = after_rpc_probe(h, probe, now_ms, config);
            let enough = h.consecutive_failures + 1 >= config.unhealthy_threshold;
            &&& enough ==> after.status == 2
            &&& !enough ==> after.status == h.status
            &&& after.consecutive_failures == h.consecutive_failures + 1
            &&& after.consecutive_successes == 0
            &&& after.total_checks == h.total_checks + 1
            &&& after.total_successes == h.total_successes
            &&& after.latency_ms == h.latency_ms
            &&& after.last_slot == h.last_slot
            &&& after.last_seen_ms == h.last_seen_ms
            &&& after.node_id == h.node_id
            &&& after.iris_healthy == h.iris_healthy
            &&& after.grpc_healthy == h.grpc_healthy
            &&& after.wins == h.wins && after.dupes == h.dupes && after.last_msg_ms == h.last_msg_ms
        }),
{
}

/// A node that comes back or goes down is reported, and only then.
pub proof fn law_every_turn_is_reported(
    h: NodeHealth,
    probe: Probe<(u64, u64)>,
    now_ms: u64,
    config: HealthConfig,
)
    requires
        h.consecutive_failures < u32::MAX,
        h.consecutive_successes < u32::MAX,
    ensures
        ({
            let after = after_rpc_probe(h, probe, now_ms, config);
            let notice = notice_of(h, probe, config);
            &&& notice is Recovered <==> h.status >= 2 && after.status < 2
            &&& notice is WentDown <==> h.status < 2 && after.status >= 2
            &&& notice is WentDown ==> notice->failures == after.consecutive_failures
        }),
{
}

/// A node is degraded for its slot exactly where it is healthy, its slot is known, and the highest slot
/// is more than five ahead; nothing else about it changes.
pub proof fn law_lagging_node_is_degraded(h: NodeHealth, max_slot: u64)
    ensures
        after_drift(h, max_slot) == (NodeHealth { status: after_drift(h, max_slot).status, ..h }),
        h.status == 0 && h.last_slot > 0 && max_slot > h.last_slot + 5 ==> after_drift(
            h,
            max_slot,
        ).status == 1,
        h.status != 0 || h.last_slot == 0 || max_slot <= h.last_slot + 5 ==> after_drift(
            h,
            max_slot,
        ).status == h.status,
{
}

/// A transaction sender is trusted exactly where it was asked and said yes, and a node's gRPC side where
/// it answered at all.
pub proof fn law_sides_are_judged_by_their_answers(
    h: NodeHealth,
    iris: Probe<bool>,
    grpc: Probe<()>,
)
    ensures
        after_iris_probe(h, iris).iris_healthy <==> iris is Answered && iris->Answered_0,
        after_iris_probe(h, iris) == (NodeHealth {
            iris_healthy: after_iris_probe(h, iris).iris_healthy,
            ..h
        }),
        after_grpc_probe(h, grpc).grpc_healthy <==> grpc is Answered,
        after_grpc_probe(h, grpc) == (NodeHealth {
            grpc_healthy: after_grpc_probe(h, grpc).grpc_healthy,
            ..h
        }),
{
}

/// A node's sender is asked exactly where it has one, and its gRPC side is pinged exactly where it has a
/// URL for it, each once in a round.
pub proof fn law_checks_are_those_configured(nodes: Seq<NodeEntry>, node: usize)
    requires
        node < nodes.len() <= usize::MAX,
    ensures
        ({
            let c = nodes[node as int].config;
            let after_rpc = step_after(CheckStep::Rpc { node }, nodes);
            let after_iris = step_after(CheckStep::Iris { node }, nodes);
            let after_grpc = step_after(CheckStep::Grpc { node }, nodes);
            let next = if node + 1 < nodes.len() {
                CheckStep::Rpc { node: (node + 1) as usize }
            } else {
                CheckStep::Wait
            };
            &&& c.iris_url is Some ==> after_rpc == (CheckStep::Iris { node })
            &&& c.iris_url is None && c.grpc_url@.len() > 0 ==> after_rpc == (CheckStep::Grpc { node })
            &&& c.iris_url is None && c.grpc_url@.len() == 0 ==> after_rpc == next
            &&& c.grpc_url@.len() > 0 ==> after_iris == (CheckStep::Grpc { node })
            &&& c.grpc_url@.len() == 0 ==> after_iris == next
            &&& after_grpc == next
        }),
{
}

/// An answer is noted for the node that was asked, and changes nothing about the others until the slots
/// are compared, which happens once, at the end of a round, for every node.
pub proof fn law_answer_is_noted_where_it_belongs(
    step: CheckStep,
    event: CheckEvent,
    nodes: Seq<NodeEntry>,
    config: HealthConfig,
    max_slot: u64,
    i: int,
)
    requires
        answers(step, event, nodes),
        0 <= i < nodes.len(),
    ensures
        ({
            let after = nodes_after(step, event, nodes, config, max_slot);
            let highest = max_after_answer(event, max_slot);
            let ends = step != CheckStep::Wait && step_after(step, nodes) == CheckStep::Wait;
            let noted = match (step, event) {
                (CheckStep::Rpc { node }, CheckEvent::Rpc { probe, now_ms }) if node == i =>
                    after_rpc_probe(nodes[i].health, probe, now_ms, config),
                (CheckStep::Iris { node }, CheckEvent::Iris { probe }) if node == i =>
                    after_iris_probe(nodes[i].health, probe),
                (CheckStep::Grpc { node }, CheckEvent::Grpc { probe }) if node == i =>
                    after_grpc_probe(nodes[i].health, probe),
                _ => nodes[i].health,
            };
            &&& after.len() == nodes.len()
            &&& after[i].config == nodes[i].config
            &&& after[i].health == if ends {
                after_drift(noted, highest)
            } else {
                noted
            }
        }),
{
}

/// The highest slot of a round is that of the answers in it: it starts at zero, no answer exceeds it,
/// and only an answer raises it.
pub proof fn law_highest_slot_is_an_answer(event: CheckEvent, max_slot: u64)
    ensures
        event is Tick ==> max_after_answer(event, max_slot) == 0,
        event is Rpc && event->Rpc_probe is Answered ==> {
            let slot = event->Rpc_probe->Answered_0.1;
            let highest = max_after_answer(event, max_slot);
            highest >= slot && highest >= max_slot && (highest == slot || highest == max_slot)
        },
        event is Rpc && !(event->Rpc_probe is Answered) ==> max_after_answer(event, max_slot)
            == max_slot,
        event is Iris || event is Grpc ==> max_after_answer(event, max_slot) == max_slot,
{
}

/// A round begins at the configured interval, but never more often than once in a second.
pub proof fn law_rounds_come_at_the_interval(config: HealthConfig)
    ensures
        config.check_interval_secs >= 1 ==> round_secs(config) == config.check_interval_secs,
        config.check_interval_secs == 0 ==> round_secs(config) == 1,
{
}

/// Every step has its own kind of answer: the wait the next round, and each question about a node what
/// came of it.
pub proof fn law_each_step_has_its_answer(step: CheckStep, event: CheckEvent, nodes: Seq<NodeEntry>)
    ensures
        answers(step, event, nodes) <==> match step {
            CheckStep::Wait => event is Tick,
            CheckStep::Rpc { node } => event is Rpc && node < nodes.len(),
            CheckStep::Iris { node } => event is Iris && node < nodes.len(),
            CheckStep::Grpc { node } => event is Grpc && node < nodes.len(),
        },
{
}

/// A reply that is no document is no answer; one without a slot counts as slot zero, and one with a slot
/// as that.
pub proof fn law_slot_is_what_the_reply_says(parsed: Option<Option<u64>>, slot: u64)
    ensures
        slot_given(parsed) is None <==> parsed is None,
        slot > 0 ==> (slot_given(parsed) == Some(slot) <==> parsed == Some(Some(slot))),
        parsed == Some(None::<u64>) ==> slot_given(parsed) == Some(0u64),
{
}

/// The slot of a reply is the number under `result`, and zero where a document has none there.
pub proof fn law_slot_is_the_result(body: Seq<u8>, slot: u64)
    ensures
        codec::json_u64(body, "result"@) == Some(Some(slot)) ==> slot_in(body) == Some(slot),
        codec::json_u64(body, "result"@) == Some(None::<u64>) ==> slot_in(body) == Some(0u64),
        codec::json_u64(body, "result"@) is None ==> slot_in(body) is None,
{
}

/// A node that is up goes down exactly when the failures in a row reach the threshold, and a
/// single unanswered check never brings a node that is down up again.
pub proof fn law_ejected_after_failures(h: NodeHealth, config: HealthConfig)
    requires
        h.consecutive_failures < u32::MAX,
    ensures
        h.spec_healthy() ==> (after_failure(h, config).spec_healthy() == (h.consecutive_failures + 1
            < config.unhealthy_threshold)),
        !h.spec_healthy() ==> !after_failure(h, config).spec_healthy(),
{
}

/// A node that is down comes back exactly when the answers in a row reach the threshold, and an
/// answered check never takes a node that is up down.
pub proof fn law_restored_after_answers(
    h: NodeHealth,
    latency_ms: u64,
    slot: u64,
    now_ms: u64,
    config: HealthConfig,
)
    requires
        h.consecutive_successes < u32::MAX,
    ensures
        !h.spec_healthy() ==> (after_answer(h, latency_ms, slot, now_ms, config).spec_healthy() == (
        h.consecutive_successes + 1 >= config.healthy_threshold)),
        h.spec_healthy() ==> after_answer(h, latency_ms, slot, now_ms, config).spec_healthy(),
{
}

/// The health after a number of unanswered checks in a row.
pub open spec fn after_failures(h: NodeHealth, n: nat, config: HealthConfig) -> NodeHealth
    decreases n,
{
    if n == 0 {
        h
    } else {
        after_failure(after_failures(h, (n - 1) as nat, config), config)
    }
}

/// The health after answered checks in a row, each with its latency, slot and time.
pub open spec fn after_answers(
    h: NodeHealth,
    answers: Seq<(u64, u64, u64)>,
    config: HealthConfig,
) -> NodeHealth
    decreases answers.len(),
{
    if answers.len() == 0 {
        h
    } else {
        let (latency_ms, slot, now_ms) = answers.last();
        after_answer(
            after_answers(h, answers.drop_last(), config),
            latency_ms,
            slot,
            now_ms,
            config,
        )
    }
}

/// A node that is up and whose last check was answered goes down after exactly
/// `unhealthy_threshold` unanswered checks in a row (one, for a threshold of zero).
pub proof fn law_down_after_threshold(h: NodeHealth, n: nat, config: HealthConfig)
    requires
        h.spec_healthy(),
        h.consecutive_failures == 0,
        n <= u32::MAX,
    ensures
        after_failures(h, n, config).consecutive_failures == n,
        after_failures(h, n, config).spec_healthy() == (n == 0 || n < config.unhealthy_threshold),
    decreases n,
{
    if n > 0 {
        law_down_after_threshold(h, (n - 1) as nat, config);
    }
}

/// A node that is down and whose last check was not answered is up again after exactly
/// `healthy_threshold` answered checks in a row (one, for a threshold of zero).
pub proof fn law_up_after_threshold(
    h: NodeHealth,
    answers: Seq<(u64, u64, u64)>,
    config: HealthConfig,
)
    requires
        !h.spec_healthy(),
        h.consecutive_successes == 0,
        answers.len() <= u32::MAX,
    ensures
        after_answers(h, answers, config).consecutive_successes == answers.len(),
        after_answers(h, answers, config).spec_healthy() == (answers.len() > 0 && answers.len()
            >= config.healthy_threshold),
    decreases answers.len(),
{
    if answers.len() > 0 {
        law_up_after_threshold(h, answers.drop_last(), config);
    }
}

/// Comparing slots never takes a node down, nor brings one up.
pub proof fn law_drift_only_degrades(h: NodeHealth, max_slot: u64)
    ensures
        after_drift(h, max_slot).spec_healthy() == h.spec_healthy(),
        after_drift(h, max_slot).last_slot == h.last_slot,
{
}

/// How far a round has come; it counts up with every step until the round ends.
pub open spec fn progress(step: CheckStep) -> int {
    match step {
        CheckStep::Wait => -1,
        CheckStep::Rpc { node } => 3 * node,
        CheckStep::Iris { node } => 3 * node + 1,
        CheckStep::Grpc { node } => 3 * node + 2,
    }
}

/// Within a round the checks go through the nodes in order and skip none: what follows a check of
/// a node is another check of that node or the first check of the next one, and the round ends
/// only behind the last node.
pub proof fn law_round_goes_through_all_nodes(step: CheckStep, nodes: Seq<NodeEntry>)
    requires
        nodes.len() <= usize::MAX,
        match step {
            CheckStep::Wait => nodes.len() > 0,
            CheckStep::Rpc { node } => node < nodes.len(),
            CheckStep::Iris { node } => node < nodes.len(),
            CheckStep::Grpc { node } => node < nodes.len(),
        },
    ensures
        step == CheckStep::Wait ==> step_after(step, nodes) == (CheckStep::Rpc { node: 0 }),
        step != CheckStep::Wait && step_after(step, nodes) != CheckStep::Wait ==> progress(step)
            < progress(step_after(step, nodes)) <= 3 * (progress(step) / 3) + 3,
        step != CheckStep::Wait && step_after(step, nodes) == CheckStep::Wait ==> progress(step) / 3
            == nodes.len() - 1,
        step_after(step, nodes) is Rpc && step != CheckStep::Wait ==> progress(
            step_after(step, nodes),
        ) == 3 * (progress(step) / 3) + 3,
{
}

impl HealthChecker {
    /// A checker that waits for its first round.
    pub fn new(config: HealthConfig) -> (c: HealthChecker)
        ensures
            c.config == config,
            c.step == CheckStep::Wait,
            c.max_slot == 0,
    {
        HealthChecker { config, step: CheckStep::Wait, max_slot: 0 }
    }

    /// Seconds between rounds: the configured number, at least one.
    pub fn interval_secs(&self) -> (r: u64)
        ensures
            r == round_secs(self.config),
    {
        if self.config.check_interval_secs > 1 {
            self.config.check_interval_secs
        } else {
            1
        }
    }

    fn first_step(node: usize, nodes: &Vec<NodeEntry>) -> (r: CheckStep)
        ensures
            r == step_for(node as int, nodes@),
    {
        if node < nodes.len() {
            CheckStep::Rpc { node }
        } else {
            CheckStep::Wait
        }
    }

    fn past_iris(node: usize, nodes: &Vec<NodeEntry>) -> (r: CheckStep)
        requires
            node < nodes@.len(),
        ensures
            r == step_past_iris(node as int, nodes@),
    {
        let count: usize = nodes.len();
        assert(node < count);
        if nodes[node].config.grpc_url.as_str().unicode_len() > 0 {
            CheckStep::Grpc { node }
        } else {
            Self::first_step(node + 1, nodes)
        }
    }

    /// Takes the answer to the current step, and says what to do next. When the last check of a
    /// round has been answered, the slots of all nodes are compared.
    pub fn advance(&mut self, nodes: &mut Vec<NodeEntry>, event: CheckEvent) -> (r: (
        CheckStep,
        HealthNotice,
    ))
        requires
            answers(old(self).step, event, old(nodes)@),
        ensures
            final(self).config == old(self).config,
            final(self).max_slot == max_after_answer(event, old(self).max_slot),
            final(self).step == step_after(old(self).step, old(nodes)@),
            r.0 == final(self).step,
            final(nodes)@ == nodes_after(
                old(self).step,
                event,
                old(nodes)@,
                old(self).config,
                old(self).max_slot,
            ),
            r.1 == notice_after(old(self).step, event, old(nodes)@, old(self).config),
    {
        let ghost before = nodes@;
        let mut notice = HealthNotice::Nothing;
        let count: usize = nodes.len();
        let tick: bool = matches!(event, CheckEvent::Tick);
        let next = match (self.step, event) {
            (CheckStep::Wait, CheckEvent::Tick) => {
                self.max_slot = 0;
                Self::first_step(0, nodes)
            },
            (CheckStep::Rpc { node }, CheckEvent::Rpc { probe, now_ms }) => {
                notice = nodes[node].health.observe_rpc(&probe, now_ms, &self.config);
                if let Probe::Answered((_, slot)) = probe {
                    if slot > self.max_slot {
                        self.max_slot = slot;
                    }
                }
                if nodes[node].config.iris_url.is_some() {
                    CheckStep::Iris { node }
                } else {
                    Self::past_iris(node, nodes)
                }
            },
            (CheckStep::Iris { node }, CheckEvent::Iris { probe }) => {
                nodes[node].health.observe_iris(&probe);
                Self::past_iris(node, nodes)
            },
            (CheckStep::Grpc { node }, CheckEvent::Grpc { probe }) => {
                nodes[node].health.observe_grpc(&probe);
                Self::first_step(node + 1, nodes)
            },
            _ => self.step,
        };
        self.step = next;
        if !tick && next == CheckStep::Wait {
            compare_slots(nodes, self.max_slot);
        }
        (next, notice)
    }
}

} // verus!
