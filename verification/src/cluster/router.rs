//! Which node serves a request, and what happens when one fails.

use crate::cluster::NodeEntry;
use crate::codec;
use crate::text;
use vstd::prelude::*;
use vstd::string::StringExecFns;

verus! {

/// Seconds that an upstream has for its answer.
pub const UPSTREAM_TIMEOUT_SECS: u64 = 8;

/// An upstream's answer, to be handed on as it is.
#[derive(Debug)]
pub struct Reply {
    pub status: u16,
    pub body: Vec<u8>,
}

/// What came of sending a request to one node.
#[derive(Debug)]
pub enum UpstreamOutcome {
    /// The request could not be put together.
    NotBuilt(String),
    /// No answer within the time allowed.
    TimedOut,
    /// The request was not answered.
    Failed(String),
    /// The answer began, but its body did not come.
    BodyFailed(String),
    Answered(Reply),
}

/// A node that a transaction is sent to, and the URL there.
#[derive(Debug)]
pub struct SendTarget {
    pub node: usize,
    pub url: String,
}

/// What to do with a request that is tried on one node after the other.
#[derive(Debug)]
pub enum Attempt {
    /// Send it to this node.
    Forward(usize),
    /// This is the answer.
    Answer(Reply),
    /// Every node failed, the last one with this error.
    GiveUp(String),
}

/// A request that is tried on one node after the other.
#[derive(Debug)]
pub struct Attempts {
    /// The nodes, in the order in which they are tried.
    pub order: Vec<usize>,
    /// How many have failed.
    pub at: usize,
}

/// A transaction that was sent to several nodes at once.
#[derive(Debug)]
pub struct SendCollector {
    pub last_err: Option<String>,
}

/// Chooses nodes by their health and priority.
pub struct Router {
    pub nodes: Vec<NodeEntry>,
    pub send_tx_node_ids: Vec<String>,
    pub grpc_node_ids: Vec<String>,
    pub heavy_rpc_counter: usize,
}

/// The node is not down.
pub open spec fn healthy() -> spec_fn(NodeEntry) -> bool {
    |n: NodeEntry| n.health.spec_healthy()
}

/// The node's id is among `ids`.
pub open spec fn listed(ids: Seq<String>) -> spec_fn(NodeEntry) -> bool {
    |n: NodeEntry| text::views(ids).contains(n.config.id@)
}

/// The node's id is among `ids`, and it is not down.
pub open spec fn listed_healthy(ids: Seq<String>) -> spec_fn(NodeEntry) -> bool {
    |n: NodeEntry| text::views(ids).contains(n.config.id@) && n.health.spec_healthy()
}

/// The node's id is among `ids`, it is not down, and its gRPC side answers.
pub open spec fn listed_grpc_healthy(ids: Seq<String>) -> spec_fn(NodeEntry) -> bool {
    |n: NodeEntry|
        text::views(ids).contains(n.config.id@) && n.health.spec_healthy() && n.health.grpc_healthy
}

/// The positions of the nodes that pass, in order.
pub open spec fn positions(nodes: Seq<NodeEntry>, ok: spec_fn(NodeEntry) -> bool) -> Seq<int>
    decreases nodes.len(),
{
    if nodes.len() == 0 {
        Seq::empty()
    } else if ok(nodes.last()) {
        positions(nodes.drop_last(), ok).push(nodes.len() - 1)
    } else {
        positions(nodes.drop_last(), ok)
    }
}

/// Node `a` comes before node `b`: its priority is lower, or equal and it stands further ahead.
pub open spec fn comes_before(nodes: Seq<NodeEntry>, a: int, b: int) -> bool {
    ||| nodes[a].config.priority < nodes[b].config.priority
    ||| nodes[a].config.priority == nodes[b].config.priority && a < b
}

/// Position `i` passes, and comes before all others that pass.
pub open spec fn is_first(nodes: Seq<NodeEntry>, ok: spec_fn(NodeEntry) -> bool, i: int) -> bool {
    &&& 0 <= i < nodes.len()
    &&& ok(nodes[i])
    &&& forall|j: int|
        0 <= j < nodes.len() && j != i && ok(#[trigger] nodes[j]) ==> comes_before(nodes, i, j)
}

/// `n` is the node that comes first among those that pass; there is none where none passes.
pub open spec fn is_pick(
    nodes: Seq<NodeEntry>,
    ok: spec_fn(NodeEntry) -> bool,
    n: Option<NodeEntry>,
) -> bool {
    match n {
        Some(n) => exists|i: int| #[trigger] is_first(nodes, ok, i) && n == nodes[i],
        None => forall|j: int| 0 <= j < nodes.len() ==> !ok(#[trigger] nodes[j]),
    }
}

/// `order` holds the positions of all nodes that are not down, each once, by priority; nodes of
/// equal priority keep their order.
pub open spec fn is_read_order(nodes: Seq<NodeEntry>, order: Seq<usize>) -> bool {
    &&& forall|a: int|
        0 <= a < order.len() ==> order[a] < nodes.len() && healthy()(
            nodes[#[trigger] order[a] as int],
        )
    &&& forall|i: int|
        0 <= i < nodes.len() && healthy()(#[trigger] nodes[i]) ==> order.contains(i as usize)
    &&& forall|a: int, b: int|
        0 <= a < b < order.len() ==> comes_before(
            nodes,
            #[trigger] order[a] as int,
            #[trigger] order[b] as int,
        )
}

/// The nodes that are not down in turn, beginning with the one that the counter points at.
pub open spec fn heavy_order(nodes: Seq<NodeEntry>, counter: usize) -> Seq<int> {
    let up = positions(nodes, healthy());
    Seq::new(up.len(), |k: int| up[(counter as int % up.len() as int + k) % up.len() as int])
}

/// What follows from the result of the attempt at position `at` of `order`.
pub open spec fn attempt_after(
    order: Seq<usize>,
    at: int,
    result: Result<Reply, String>,
) -> Attempt {
    match result {
        Ok(reply) => Attempt::Answer(reply),
        Err(e) => if at + 1 < order.len() {
            Attempt::Forward(order[at + 1])
        } else {
            Attempt::GiveUp(e)
        },
    }
}

/// What results in the end where the node at each position of `order` gives its result.
pub open spec fn tried_from(
    order: Seq<usize>,
    results: Seq<Result<Reply, String>>,
    at: int,
) -> Attempt
    decreases order.len() - at,
{
    match attempt_after(order, at, results[at]) {
        Attempt::Forward(_) if at + 1 < order.len() => tried_from(order, results, at + 1),
        done => done,
    }
}

/// Where a transaction for a node goes: to its sender where there is one and it answers, else to
/// its RPC side.
pub open spec fn send_url(n: NodeEntry) -> Seq<char> {
    match n.config.iris_url {
        Some(url) => if n.health.iris_healthy {
            url@
        } else {
            n.config.rpc_url@
        },
        None => n.config.rpc_url@,
    }
}

/// `r` is where a transaction goes, or that it can go nowhere.
pub open spec fn is_fan_out(
    nodes: Seq<NodeEntry>,
    ids: Seq<String>,
    r: Result<Vec<SendTarget>, String>,
) -> bool {
    let targets = positions(nodes, listed_healthy(ids));
    match r {
        Ok(ts) => {
            &&& ts@.len() > 0
            &&& ts@.map_values(|t: SendTarget| t.node as int) == targets
            &&& forall|k: int|
                0 <= k < ts@.len() ==> (#[trigger] ts@[k]).url@ == send_url(
                    nodes[ts@[k].node as int],
                )
        },
        Err(e) => targets.len() == 0 && e@ == "No healthy nodes for sendTransaction"@,
    }
}

/// `r` is how a heavy read begins, and `next` the counter after it.
pub open spec fn is_heavy_read(
    nodes: Seq<NodeEntry>,
    counter: usize,
    next: usize,
    r: Result<Attempts, String>,
) -> bool {
    match r {
        Ok(a) => {
            &&& a.at == 0
            &&& a.order@.len() > 0
            &&& ints(a.order@) == heavy_order(nodes, counter)
            &&& next == counter.wrapping_add(1)
        },
        Err(e) => {
            &&& positions(nodes, healthy()).len() == 0
            &&& e@ == "No healthy nodes for heavy RPC"@
            &&& next == counter
        },
    }
}

/// `r` is how a read begins.
pub open spec fn is_read(nodes: Seq<NodeEntry>, r: Result<Attempts, String>) -> bool {
    match r {
        Ok(a) => a.at == 0 && a.order@.len() > 0 && is_read_order(nodes, a.order@),
        Err(e) => {
            &&& positions(nodes, healthy()).len() == 0
            &&& e@ == "No healthy nodes"@
        },
    }
}

/// `r` is what follows from the result of the current attempt, and `next` the attempts after it.
pub open spec fn is_next_attempt(
    before: Attempts,
    next: Attempts,
    result: Result<Reply, String>,
    r: Attempt,
) -> bool {
    &&& r == attempt_after(before.order@, before.at as int, result)
    &&& next.order == before.order
    &&& next.at == if r is Forward {
        (before.at + 1) as usize
    } else {
        before.at
    }
}

/// What is said of one attempt.
pub open spec fn forward_given(node_id: Seq<char>, outcome: UpstreamOutcome) -> Result<
    Reply,
    Seq<char>,
> {
    match outcome {
        UpstreamOutcome::NotBuilt(e) => Err("Request build error: "@ + e@),
        UpstreamOutcome::TimedOut => Err("Upstream "@ + node_id + " timeout after 8s"@),
        UpstreamOutcome::Failed(e) => Err("Upstream "@ + node_id + " error: "@ + e@),
        UpstreamOutcome::BodyFailed(e) => Err("Body read error: "@ + e@),
        UpstreamOutcome::Answered(reply) => Ok(reply),
    }
}

/// Why a URL cannot be used.
pub open spec fn url_error_given(refusal: Option<Seq<char>>) -> Option<Seq<char>> {
    match refusal {
        Some(e) => Some("Invalid URL: "@ + e),
        None => None,
    }
}

/// What is said of a URL that was refused with the given error.
pub fn url_error(refusal: Option<String>) -> (r: Option<String>)
    ensures
        text::opt_view(r) == url_error_given(text::opt_view(refusal)),
{
    match refusal {
        Some(e) => Some(text::concat("Invalid URL: ", e.as_str())),
        None => None,
    }
}

/// A request can be sent to a URL that is not refused, and to no other.
pub open spec fn is_url_verdict(refusal: Option<Seq<char>>, r: Result<(), String>) -> bool {
    match r {
        Ok(_) => refusal is None,
        Err(e) => url_error_given(refusal) == Some(e@),
    }
}

/// What one attempt comes to.
pub open spec fn is_attempt_result(
    node_id: Seq<char>,
    outcome: UpstreamOutcome,
    r: Result<Reply, String>,
) -> bool {
    match (r, forward_given(node_id, outcome)) {
        (Ok(a), Ok(b)) => a == b,
        (Err(a), Err(b)) => a@ == b,
        _ => false,
    }
}

/// The node that serves a read, or a WebSocket.
pub open spec fn is_read_pick(nodes: Seq<NodeEntry>, r: Option<&NodeEntry>) -> bool {
    is_pick(
        nodes,
        healthy(),
        match r {
            Some(n) => Some(*n),
            None => None,
        },
    )
}

/// The node that serves a gRPC call.
pub open spec fn is_grpc_pick(
    nodes: Seq<NodeEntry>,
    ids: Seq<String>,
    r: Option<&NodeEntry>,
) -> bool {
    is_pick(
        nodes,
        listed_grpc_healthy(ids),
        match r {
            Some(n) => Some(*n),
            None => None,
        },
    )
}

/// Whether a request can be sent to a URL, and if not, why.
pub fn check_url(url: &str) -> (r: Result<(), String>)
    ensures
        is_url_verdict(codec::uri_refusal(url@), r),
{
    match url_error(codec::uri_error(url)) {
        Some(e) => Err(e),
        None => Ok(()),
    }
}

/// What one attempt comes to.
pub fn forward_result(node_id: &str, outcome: UpstreamOutcome) -> (r: Result<Reply, String>)
    ensures
        is_attempt_result(node_id@, outcome, r),
{
    match outcome {
        UpstreamOutcome::NotBuilt(e) => Err(text::concat("Request build error: ", e.as_str())),
        UpstreamOutcome::TimedOut => {
            let mut s = text::concat("Upstream ", node_id);
            s.append(" timeout after 8s");
            Err(s)
        },
        UpstreamOutcome::Failed(e) => {
            let mut s = text::concat("Upstream ", node_id);
            s.append(" error: ");
            s.append(e.as_str());
            Err(s)
        },
        UpstreamOutcome::BodyFailed(e) => Err(text::concat("Body read error: ", e.as_str())),
        UpstreamOutcome::Answered(reply) => Ok(reply),
    }
}

/// The positions that pass increase, lie in range, and are exactly those of nodes that pass.
pub proof fn lemma_positions(nodes: Seq<NodeEntry>, ok: spec_fn(NodeEntry) -> bool)
    ensures
        positions(nodes, ok).len() <= nodes.len(),
        forall|a: int|
            0 <= a < positions(nodes, ok).len() ==> 0 <= #[trigger] positions(nodes, ok)[a]
                < nodes.len() && ok(nodes[positions(nodes, ok)[a]]),
        forall|a: int, b: int|
            0 <= a < b < positions(nodes, ok).len() ==> #[trigger] positions(nodes, ok)[a]
                < #[trigger] positions(nodes, ok)[b],
        forall|i: int|
            0 <= i < nodes.len() && ok(#[trigger] nodes[i]) ==> positions(nodes, ok).contains(i),
    decreases nodes.len(),
{
    if nodes.len() > 0 {
        let rest = nodes.drop_last();
        let p = positions(rest, ok);
        let q = positions(nodes, ok);
        lemma_positions(rest, ok);
        assert forall|i: int| 0 <= i < nodes.len() && ok(#[trigger] nodes[i]) implies q.contains(
            i,
        ) by {
            if i < rest.len() {
                assert(ok(rest[i]));
                assert(q[p.index_of(i)] == i);
            } else {
                assert(q[p.len() as int] == i);
            }
        }
    }
}

/// The positions among `nodes` that pass, grown by one node.
proof fn lemma_positions_step(nodes: Seq<NodeEntry>, ok: spec_fn(NodeEntry) -> bool, i: int)
    requires
        0 <= i < nodes.len(),
    ensures
        positions(nodes.take(i + 1), ok) == if ok(nodes[i]) {
            positions(nodes.take(i), ok).push(i)
        } else {
            positions(nodes.take(i), ok)
        },
{
    assert(nodes.take(i + 1).drop_last() =~= nodes.take(i));
}

/// Machine positions as numbers.
pub open spec fn ints(v: Seq<usize>) -> Seq<int> {
    v.map_values(|i: usize| i as int)
}

/// Who may be chosen: for a read any node that is not down, degraded ones among them, for a transaction
/// one that is listed besides, and for gRPC one that is listed and whose gRPC side answers.
pub proof fn law_who_may_be_chosen(ids: Seq<String>, n: NodeEntry)
    ensures
        healthy()(n) <==> n.health.status < 2,
        listed(ids)(n) <==> exists|i: int| 0 <= i < ids.len() && (#[trigger] ids[i])@ == n.config.id@,
        listed_healthy(ids)(n) <==> listed(ids)(n) && n.health.status < 2,
        listed_grpc_healthy(ids)(n) <==> listed(ids)(n) && n.health.status < 2
            && n.health.grpc_healthy,
{
    let views = text::views(ids);
    if views.contains(n.config.id@) {
        let i = views.index_of(n.config.id@);
        assert(ids[i]@ == views[i]);
    }
    if exists|i: int| 0 <= i < ids.len() && (#[trigger] ids[i])@ == n.config.id@ {
        let i = choose|i: int| 0 <= i < ids.len() && (#[trigger] ids[i])@ == n.config.id@;
        assert(views[i] == n.config.id@);
    }
}

/// A transaction for a node goes to its sender where it has one that answers, and to its RPC side in
/// every other case.
pub proof fn law_transaction_goes_to_the_sender_or_the_rpc_side(n: NodeEntry)
    ensures
        n.config.iris_url is Some && n.health.iris_healthy ==> send_url(n)
            == n.config.iris_url->0@,
        n.config.iris_url is None ==> send_url(n) == n.config.rpc_url@,
        !n.health.iris_healthy ==> send_url(n) == n.config.rpc_url@,
{
}

/// A transaction is sent to every node that is listed for it and not down, to each once, in order, and
/// to no other; where there is none, it is refused. Each target's URL is that of its node's sender where
/// it has one that answers, and of its RPC side in every other case.
pub proof fn law_fan_out_reaches_every_target(
    nodes: Seq<NodeEntry>,
    ids: Seq<String>,
    r: Result<Vec<SendTarget>, String>,
)
    requires
        is_fan_out(nodes, ids, r),
    ensures
        r is Err <==> forall|i: int|
            0 <= i < nodes.len() && text::views(ids).contains((#[trigger] nodes[i]).config.id@) ==>
                nodes[i].health.status >= 2,
        r is Err ==> r->Err_0@ == "No healthy nodes for sendTransaction"@,
        r is Ok ==> {
            let ts = r->Ok_0@;
            &&& forall|i: int|
                0 <= i < nodes.len() && text::views(ids).contains(
                    (#[trigger] nodes[i]).config.id@,
                ) && nodes[i].health.status < 2 ==> exists|k: int|
                    0 <= k < ts.len() && (#[trigger] ts[k]).node == i
            &&& forall|k: int|
                0 <= k < ts.len() ==> {
                    let t = #[trigger] ts[k];
                    let n = nodes[t.node as int];
                    &&& t.node < nodes.len()
                    &&& text::views(ids).contains(n.config.id@)
                    &&& n.health.status < 2
                    &&& t.url@ == if n.config.iris_url is Some && n.health.iris_healthy {
                        n.config.iris_url->0@
                    } else {
                        n.config.rpc_url@
                    }
                }
            &&& forall|j: int, k: int|
                0 <= j < k < ts.len() ==> (#[trigger] ts[j]).node < (#[trigger] ts[k]).node
        },
{
    let ok = listed_healthy(ids);
    let found = positions(nodes, ok);
    lemma_positions(nodes, ok);
    assert forall|i: int| 0 <= i < nodes.len() implies (ok(#[trigger] nodes[i]) <==> text::views(
        ids,
    ).contains(nodes[i].config.id@) && nodes[i].health.status < 2) by {}
    if r is Ok {
        let ts = r->Ok_0@;
        let places = ts.map_values(|t: SendTarget| t.node as int);
        assert forall|k: int| 0 <= k < ts.len() implies (#[trigger] ts[k]).node == found[k] by {
            assert(places[k] == ts[k].node);
        }
        assert forall|i: int|
            0 <= i < nodes.len() && text::views(ids).contains(
                (#[trigger] nodes[i]).config.id@,
            ) && nodes[i].health.status < 2 implies exists|k: int|
            0 <= k < ts.len() && (#[trigger] ts[k]).node == i by {
            assert(ok(nodes[i]));
            let k = found.index_of(i);
            assert(ts[k].node == found[k]);
        }
        assert(ts[0].node == found[0]);
        assert(ok(nodes[found[0]]));
    } else {
        assert forall|i: int|
            0 <= i < nodes.len() && text::views(ids).contains(
                (#[trigger] nodes[i]).config.id@,
            ) implies nodes[i].health.status >= 2 by {
            if nodes[i].health.status < 2 {
                assert(ok(nodes[i]));
                assert(found.contains(i));
            }
        }
    }
}

/// The node that is picked passes; none that passes has a lower priority, and of those with the same
/// priority it stands first. None is picked only where none passes.
pub proof fn law_pick_is_the_first_by_priority(
    nodes: Seq<NodeEntry>,
    ok: spec_fn(NodeEntry) -> bool,
    n: Option<NodeEntry>,
)
    requires
        is_pick(nodes, ok, n),
    ensures
        n is None ==> forall|j: int| 0 <= j < nodes.len() ==> !ok(#[trigger] nodes[j]),
        n is Some ==> exists|i: int|
            {
                &&& 0 <= i < nodes.len()
                &&& #[trigger] nodes[i] == n->0
                &&& ok(nodes[i])
                &&& forall|j: int|
                    0 <= j < nodes.len() && ok(#[trigger] nodes[j]) ==> nodes[i].config.priority
                        <= nodes[j].config.priority
                &&& forall|j: int|
                    0 <= j < i && ok(#[trigger] nodes[j]) ==> nodes[i].config.priority
                        < nodes[j].config.priority
            },
{
    if n is Some {
        let i = choose|i: int| #[trigger] is_first(nodes, ok, i) && n->0 == nodes[i];
        assert(nodes[i] == n->0);
    }
}

/// A read is tried on the nodes that are not down, on each once, beginning with the lowest priority; of
/// those with the same priority the one that stands first goes first.
pub proof fn law_read_goes_by_priority(nodes: Seq<NodeEntry>, r: Result<Attempts, String>)
    requires
        nodes.len() <= usize::MAX,
        is_read(nodes, r),
    ensures
        r is Err <==> forall|i: int| 0 <= i < nodes.len() ==> (#[trigger] nodes[i]).health.status >= 2,
        r is Err ==> r->Err_0@ == "No healthy nodes"@,
        r is Ok ==> {
            let order = r->Ok_0.order@;
            &&& r->Ok_0.at == 0
            &&& order.len() > 0
            &&& forall|i: int|
                0 <= i < nodes.len() ==> (order.contains(i as usize) <==> (
                #[trigger] nodes[i]).health.status < 2)
            &&& forall|a: int| 0 <= a < order.len() ==> #[trigger] order[a] < nodes.len()
            &&& forall|a: int, b: int|
                0 <= a < b < order.len() ==> {
                    let first = nodes[#[trigger] order[a] as int].config.priority;
                    let second = nodes[#[trigger] order[b] as int].config.priority;
                    first < second || first == second && order[a] < order[b]
                }
        },
{
    lemma_positions(nodes, healthy());
    assert forall|i: int| 0 <= i < nodes.len() implies (healthy()(#[trigger] nodes[i]) <==> nodes[i].health.status
        < 2) by {}
    if r is Ok {
        let order = r->Ok_0.order@;
        law_read_tries_each_once(nodes, order);
        assert(healthy()(nodes[order[0] as int]));
    } else {
        assert forall|i: int| 0 <= i < nodes.len() implies (
        #[trigger] nodes[i]).health.status >= 2 by {
            if healthy()(nodes[i]) {
                assert(positions(nodes, healthy()).contains(i));
            }
        }
    }
}

/// There is one ascending list of the positions that pass.
proof fn lemma_positions_unique(
    nodes: Seq<NodeEntry>,
    ok: spec_fn(NodeEntry) -> bool,
    up: Seq<int>,
)
    requires
        forall|a: int, b: int| 0 <= a < b < up.len() ==> #[trigger] up[a] < #[trigger] up[b],
        forall|i: int| #[trigger]
            up.contains(i) <==> 0 <= i < nodes.len() && ok(nodes[i]),
    ensures
        up == positions(nodes, ok),
    decreases nodes.len(),
{
    let q = positions(nodes, ok);
    lemma_positions(nodes, ok);
    if nodes.len() == 0 {
        if up.len() > 0 {
            assert(up.contains(up[0]));
        }
        assert(up =~= q);
    } else {
        let rest = nodes.drop_last();
        let last = nodes.len() - 1;
        assert forall|i: int| 0 <= i < last implies #[trigger] rest[i] == nodes[i] by {}
        if ok(nodes.last()) {
            assert(up.contains(last));
            let p = up.index_of(last);
            assert(p == up.len() - 1) by {
                if p < up.len() - 1 {
                    assert(up[p] < up[up.len() - 1]);
                    assert(up.contains(up[up.len() - 1]));
                }
            }
            let front = up.drop_last();
            assert forall|i: int| #[trigger]
                front.contains(i) <==> 0 <= i < rest.len() && ok(rest[i]) by {
                if front.contains(i) {
                    let k = front.index_of(i);
                    assert(up[k] == i);
                    assert(up.contains(i));
                    assert(up[k] < up[p]);
                }
                if 0 <= i < rest.len() && ok(rest[i]) {
                    assert(rest[i] == nodes[i]);
                    assert(up.contains(i));
                    let k = up.index_of(i);
                    assert(front[k] == i);
                }
            }
            lemma_positions_unique(rest, ok, front);
            assert(up =~= front.push(last));
        } else {
            assert forall|i: int| #[trigger]
                up.contains(i) <==> 0 <= i < rest.len() && ok(rest[i]) by {
                if up.contains(i) {
                    assert(i != last);
                    assert(rest[i] == nodes[i]);
                }
                if 0 <= i < rest.len() && ok(rest[i]) {
                    assert(rest[i] == nodes[i]);
                }
            }
            lemma_positions_unique(rest, ok, up);
        }
    }
}

/// Where `up` are the nodes that are not down, in order, a heavy read begins with the one that the
/// counter points at, counted round, goes on in order, and comes round to each of them once; the
/// counter then points one further. It is refused exactly where there are none.
pub proof fn law_heavy_read_starts_at_the_counter(
    nodes: Seq<NodeEntry>,
    counter: usize,
    next: usize,
    r: Result<Attempts, String>,
    up: Seq<int>,
)
    requires
        is_heavy_read(nodes, counter, next, r),
        forall|a: int, b: int| 0 <= a < b < up.len() ==> #[trigger] up[a] < #[trigger] up[b],
        forall|i: int| #[trigger]
            up.contains(i) <==> 0 <= i < nodes.len() && nodes[i].health.status < 2,
    ensures
        r is Err <==> up.len() == 0,
        r is Err ==> next == counter && r->Err_0@ == "No healthy nodes for heavy RPC"@,
        r is Ok ==> {
            let order = r->Ok_0.order@;
            &&& r->Ok_0.at == 0
            &&& order.len() == up.len()
            &&& forall|k: int|
                0 <= k < order.len() ==> #[trigger] order[k] == up[(counter + k) % up.len() as int]
            &&& counter < usize::MAX ==> next == counter + 1
            &&& counter == usize::MAX ==> next == 0
        },
{
    assert forall|i: int| #[trigger]
        up.contains(i) <==> 0 <= i < nodes.len() && healthy()(nodes[i]) by {}
    lemma_positions_unique(nodes, healthy(), up);
    if r is Ok {
        let order = r->Ok_0.order@;
        let n = up.len() as int;
        assert(ints(order).len() == order.len());
        assert forall|k: int| 0 <= k < order.len() implies #[trigger] order[k] == up[(counter + k)
            % n] by {
            assert(ints(order)[k] == order[k]);
            vstd::arithmetic::div_mod::lemma_add_mod_noop(counter as int, k, n);
            vstd::arithmetic::div_mod::lemma_small_mod(k as nat, n as nat);
        }
    }
}

/// A success is the answer. A failure leads to the node that comes next in the order, or, where none is
/// left, to giving up with the error.
pub proof fn law_failure_leads_to_the_next_node(
    before: Attempts,
    next: Attempts,
    result: Result<Reply, String>,
    r: Attempt,
)
    requires
        before.at < before.order@.len(),
        before.order@.len() <= usize::MAX,
        is_next_attempt(before, next, result, r),
    ensures
        next.order@ == before.order@,
        result is Ok ==> r == Attempt::Answer(result->Ok_0),
        result is Err && before.at + 1 < before.order@.len() ==> {
            &&& next.at == before.at + 1
            &&& r == Attempt::Forward(next.order@[next.at as int])
        },
        result is Err && before.at + 1 == before.order@.len() ==> r == Attempt::GiveUp(
            result->Err_0,
        ),
        before.tried_now() == before.order@[before.at as int],
        result is Err && before.at + 1 < before.order@.len() ==> next.tried_now()
            == before.order@[before.at + 1],
{
}

/// What is refused with a reason is not sent to, and what is not refused is.
pub proof fn law_refused_url_is_not_sent_to(refusal: Option<Seq<char>>, r: Result<(), String>)
    requires
        is_url_verdict(refusal, r),
    ensures
        r is Ok <==> refusal is None,
        r is Err ==> r->Err_0@ == "Invalid URL: "@ + refusal->0,
{
}

/// An attempt comes to the node's answer exactly where the node answered; every failure names itself, and
/// one on the way to the node names the node.
pub proof fn law_attempt_comes_to_the_answer(
    node_id: Seq<char>,
    outcome: UpstreamOutcome,
    r: Result<Reply, String>,
)
    requires
        is_attempt_result(node_id, outcome, r),
    ensures
        r is Ok <==> outcome is Answered,
        outcome matches UpstreamOutcome::Answered(reply) ==> r->Ok_0 == reply,
        outcome matches UpstreamOutcome::NotBuilt(e) ==> r->Err_0@ == "Request build error: "@ + e@,
        outcome is TimedOut ==> r->Err_0@ == "Upstream "@ + node_id + " timeout after "@
            + text::decimal(UPSTREAM_TIMEOUT_SECS as nat) + "s"@,
        outcome matches UpstreamOutcome::Failed(e) ==> r->Err_0@ == "Upstream "@ + node_id
            + " error: "@ + e@,
        outcome matches UpstreamOutcome::BodyFailed(e) ==> r->Err_0@ == "Body read error: "@ + e@,
{
    if outcome is TimedOut {
        reveal_strlit(" timeout after 8s");
        reveal_strlit(" timeout after ");
        reveal_strlit("s");
        let spelled = text::decimal(UPSTREAM_TIMEOUT_SECS as nat);
        assert(spelled =~= seq!['8']);
        assert(" timeout after 8s"@ =~= " timeout after "@ + spelled + "s"@);
        assert(r->Err_0@ =~= "Upstream "@ + node_id + " timeout after "@ + spelled + "s"@);
    }
}

/// A read and a WebSocket are served by a node that is not down, a gRPC call by one that is listed and
/// whose gRPC side answers besides; no such node has a lower priority, and none is picked only where there
/// is none.
pub proof fn law_who_serves_what(
    nodes: Seq<NodeEntry>,
    ids: Seq<String>,
    read: Option<&NodeEntry>,
    call: Option<&NodeEntry>,
    j: int,
)
    requires
        is_read_pick(nodes, read),
        is_grpc_pick(nodes, ids, call),
        0 <= j < nodes.len(),
    ensures
        read is None ==> nodes[j].health.status >= 2,
        read matches Some(n) ==> {
            &&& nodes.contains(*n)
            &&& n.health.status < 2
            &&& nodes[j].health.status < 2 ==> n.config.priority <= nodes[j].config.priority
        },
        call is None && listed(ids)(nodes[j]) && nodes[j].health.status < 2
            ==> !nodes[j].health.grpc_healthy,
        call matches Some(n) ==> {
            &&& nodes.contains(*n)
            &&& exists|i: int| 0 <= i < ids.len() && (#[trigger] ids[i])@ == n.config.id@
            &&& n.health.status < 2
            &&& n.health.grpc_healthy
            &&& listed(ids)(nodes[j]) && nodes[j].health.status < 2 && nodes[j].health.grpc_healthy
                ==> n.config.priority <= nodes[j].config.priority
        },
{
    law_who_may_be_chosen(ids, nodes[j]);
    match read {
        Some(n) => {
            law_pick_is_the_first_by_priority(nodes, healthy(), Some(*n));
            law_who_may_be_chosen(ids, *n);
        },
        None => law_pick_is_the_first_by_priority(nodes, healthy(), None),
    }
    match call {
        Some(n) => {
            law_pick_is_the_first_by_priority(nodes, listed_grpc_healthy(ids), Some(*n));
            law_who_may_be_chosen(ids, *n);
        },
        None => law_pick_is_the_first_by_priority(nodes, listed_grpc_healthy(ids), None),
    }
}

/// An attempt succeeds exactly where the node answered, with the node's own answer. Each way to fail is
/// told from the others.
pub proof fn law_answer_is_handed_on(node_id: Seq<char>, outcome: UpstreamOutcome)
    ensures
        forward_given(node_id, outcome) is Ok <==> outcome is Answered,
        outcome is Answered ==> forward_given(node_id, outcome)->Ok_0 == outcome->Answered_0,
        outcome is TimedOut || outcome is Failed ==> {
            let e = forward_given(node_id, outcome)->Err_0;
            e.len() > 9 + node_id.len() && e.subrange(9, 9 + node_id.len() as int) == node_id
        },
        outcome is Failed ==> {
            let e = forward_given(node_id, outcome)->Err_0;
            let said = outcome->Failed_0@;
            e.skip(e.len() - said.len()) == said
        },
        outcome is NotBuilt ==> {
            let e = forward_given(node_id, outcome)->Err_0;
            let said = outcome->NotBuilt_0@;
            e.skip(e.len() - said.len()) == said
        },
        outcome is BodyFailed ==> {
            let e = forward_given(node_id, outcome)->Err_0;
            let said = outcome->BodyFailed_0@;
            e.skip(e.len() - said.len()) == said
        },
{
    reveal_strlit("Upstream ");
    reveal_strlit(" timeout after 8s");
    reveal_strlit(" error: ");
    reveal_strlit("Request build error: ");
    reveal_strlit("Body read error: ");
    match outcome {
        UpstreamOutcome::TimedOut => {
            let e = "Upstream "@ + node_id + " timeout after 8s"@;
            assert(e.subrange(9, 9 + node_id.len() as int) =~= node_id);
        },
        UpstreamOutcome::Failed(said) => {
            let e = "Upstream "@ + node_id + " error: "@ + said@;
            assert(e.subrange(9, 9 + node_id.len() as int) =~= node_id);
            assert(e.skip(e.len() - said@.len()) =~= said@);
        },
        UpstreamOutcome::NotBuilt(said) => {
            let e = "Request build error: "@ + said@;
            assert(e.skip(e.len() - said@.len()) =~= said@);
        },
        UpstreamOutcome::BodyFailed(said) => {
            let e = "Body read error: "@ + said@;
            assert(e.skip(e.len() - said@.len()) =~= said@);
        },
        UpstreamOutcome::Answered(_) => {},
    }
}

/// A URL that is refused is refused with the reason; one that is not is not.
pub proof fn law_url_is_refused_with_the_reason(refusal: Option<Seq<char>>)
    ensures
        url_error_given(refusal) is None <==> refusal is None,
        refusal is Some ==> {
            let e = url_error_given(refusal)->0;
            e.skip(e.len() - refusal->0.len()) == refusal->0
        },
{
    if refusal is Some {
        let e = "Invalid URL: "@ + refusal->0;
        assert(e.skip(e.len() - refusal->0.len()) =~= refusal->0);
    }
}

/// A read, and a WebSocket, gets a node exactly when some node is not down, and that node is not
/// down itself.
pub proof fn law_pick_is_up(nodes: Seq<NodeEntry>, n: Option<NodeEntry>)
    requires
        is_pick(nodes, healthy(), n),
    ensures
        n is Some <==> exists|i: int| 0 <= i < nodes.len() && healthy()(#[trigger] nodes[i]),
        n is Some ==> n->0.health.spec_healthy(),
        n is Some <==> positions(nodes, healthy()).len() > 0,
{
    lemma_positions(nodes, healthy());
    if n is Some {
        let i = choose|i: int| #[trigger] is_first(nodes, healthy(), i) && n->0 == nodes[i];
        assert(healthy()(nodes[i]));
        assert(positions(nodes, healthy()).contains(i));
    } else if positions(nodes, healthy()).len() > 0 {
        assert(healthy()(nodes[positions(nodes, healthy())[0]]));
    }
}

/// A gRPC client is never sent to a node that is not listed, is down or whose gRPC side is not
/// answering.
pub proof fn law_grpc_pick_is_eligible(nodes: Seq<NodeEntry>, ids: Seq<String>, n: NodeEntry)
    requires
        is_pick(nodes, listed_grpc_healthy(ids), Some(n)),
    ensures
        text::views(ids).contains(n.config.id@),
        n.health.spec_healthy(),
        n.health.grpc_healthy,
{
}

/// The node that is picked has the lowest priority of all that could have been.
pub proof fn law_pick_has_lowest_priority(
    nodes: Seq<NodeEntry>,
    ok: spec_fn(NodeEntry) -> bool,
    n: NodeEntry,
    j: int,
)
    requires
        is_pick(nodes, ok, Some(n)),
        0 <= j < nodes.len(),
        ok(nodes[j]),
    ensures
        n.config.priority <= nodes[j].config.priority,
{
}

/// The first attempt at a read goes to the node that would have been picked.
pub proof fn law_first_attempt_is_the_pick(nodes: Seq<NodeEntry>, order: Seq<usize>)
    requires
        nodes.len() <= usize::MAX,
        is_read_order(nodes, order),
        order.len() > 0,
    ensures
        is_pick(nodes, healthy(), Some(nodes[order[0] as int])),
{
    let i = order[0] as int;
    assert forall|j: int|
        0 <= j < nodes.len() && j != i && healthy()(#[trigger] nodes[j]) implies comes_before(
        nodes,
        i,
        j,
    ) by {
        assert(order.contains(j as usize));
        let b = order.index_of(j as usize);
        assert(order[b] == j);
    }
    assert(healthy()(nodes[i]));
    assert(is_first(nodes, healthy(), i));
}

/// A read is tried on every node that is not down before it is given up, and on none twice.
pub proof fn law_read_tries_each_once(nodes: Seq<NodeEntry>, order: Seq<usize>)
    requires
        nodes.len() <= usize::MAX,
        is_read_order(nodes, order),
    ensures
        order.no_duplicates(),
        forall|i: int|
            0 <= i < nodes.len() ==> (order.contains(i as usize) == healthy()(#[trigger] nodes[i])),
{
    assert forall|a: int, b: int| 0 <= a < order.len() && 0 <= b < order.len() && a != b implies order[a]
        != order[b] by {
        if a < b {
            assert(comes_before(nodes, order[a] as int, order[b] as int));
        } else {
            assert(comes_before(nodes, order[b] as int, order[a] as int));
        }
    }
}

/// A heavy read is tried on every node that is not down before it is given up, and on none twice,
/// wherever the counter stands.
pub proof fn law_heavy_tries_each_once(nodes: Seq<NodeEntry>, counter: usize)
    ensures
        heavy_order(nodes, counter).no_duplicates(),
        forall|i: int|
            0 <= i < nodes.len() ==> (heavy_order(nodes, counter).contains(i) == healthy()(
                #[trigger] nodes[i],
            )),
{
    let up = positions(nodes, healthy());
    let order = heavy_order(nodes, counter);
    let n = up.len() as int;
    lemma_positions(nodes, healthy());
    if n > 0 {
        let start = counter as int % n;
        assert forall|k: int| 0 <= k < n implies #[trigger] order[k] == up[if start + k < n {
            start + k
        } else {
            start + k - n
        }] by {
            if start + k < n {
                vstd::arithmetic::div_mod::lemma_small_mod((start + k) as nat, n as nat);
            } else {
                vstd::arithmetic::div_mod::lemma_mod_sub_multiples_vanish(start + k, n);
                vstd::arithmetic::div_mod::lemma_small_mod((start + k - n) as nat, n as nat);
            }
        }
        assert forall|i: int| 0 <= i < nodes.len() implies (order.contains(i) == healthy()(
            #[trigger] nodes[i],
        )) by {
            if healthy()(nodes[i]) {
                let p = up.index_of(i);
                assert(up.contains(i));
                let k = if p >= start { p - start } else { p + n - start };
                assert(order[k] == up[p]);
            }
        }
    }
}

/// A heavy read begins one node further than the one before it, among the same nodes.
pub proof fn law_heavy_goes_round(nodes: Seq<NodeEntry>, counter: usize)
    requires
        counter < usize::MAX,
        positions(nodes, healthy()).len() > 0,
    ensures
        heavy_order(nodes, (counter + 1) as usize)[0] == heavy_order(
            nodes,
            counter,
        )[1int % positions(nodes, healthy()).len() as int],
{
    let up = positions(nodes, healthy());
    let n = up.len() as int;
    let c = counter as int;
    vstd::arithmetic::div_mod::lemma_mod_bound(c, n);
    vstd::arithmetic::div_mod::lemma_mod_bound(c + 1, n);
    vstd::arithmetic::div_mod::lemma_small_mod((c % n) as nat, n as nat);
    vstd::arithmetic::div_mod::lemma_small_mod(((c + 1) % n) as nat, n as nat);
    vstd::arithmetic::div_mod::lemma_add_mod_noop(c, 1, n);
    vstd::arithmetic::div_mod::lemma_mod_bound(1, n);
}

/// The counter after a number of heavy reads that found a node up.
pub open spec fn counter_after(counter: usize, reads: nat) -> usize
    decreases reads,
{
    if reads == 0 {
        counter
    } else {
        counter_after(counter, (reads - 1) as nat).wrapping_add(1)
    }
}

proof fn lemma_reads_are_counted(counter: usize, reads: nat)
    requires
        counter + reads <= usize::MAX,
    ensures
        counter_after(counter, reads) == counter + reads,
    decreases reads,
{
    if reads > 0 {
        lemma_reads_are_counted(counter, (reads - 1) as nat);
    }
}

/// As many heavy reads in a row as nodes are up begin at as many different nodes, while the nodes
/// stay the same and the counter does not wrap: of any two of them, one after `i` and one after `j`
/// others, each begins at a node of its own.
pub proof fn law_heavy_starts_differ(nodes: Seq<NodeEntry>, counter: usize, i: nat, j: nat)
    requires
        i < j < positions(nodes, healthy()).len(),
        counter + j <= usize::MAX,
    ensures
        heavy_order(nodes, counter_after(counter, i))[0] != heavy_order(
            nodes,
            counter_after(counter, j),
        )[0],
{
    let up = positions(nodes, healthy());
    let n = up.len() as int;
    let a = (counter + i) % n;
    let b = (counter + j) % n;
    lemma_reads_are_counted(counter, i);
    lemma_reads_are_counted(counter, j);
    lemma_positions(nodes, healthy());
    vstd::arithmetic::div_mod::lemma_mod_bound(counter + i, n);
    vstd::arithmetic::div_mod::lemma_mod_bound(counter + j, n);
    vstd::arithmetic::div_mod::lemma_small_mod(a as nat, n as nat);
    vstd::arithmetic::div_mod::lemma_small_mod(b as nat, n as nat);
    assert(heavy_order(nodes, (counter + i) as usize)[0] == up[a]);
    assert(heavy_order(nodes, (counter + j) as usize)[0] == up[b]);
    if a == b {
        vstd::arithmetic::div_mod::lemma_mod_equivalence(counter + j, counter + i, n);
        vstd::arithmetic::div_mod::lemma_small_mod((j - i) as nat, n as nat);
        assert(false);
    }
    assert(a < b || b < a);
}

/// A transaction goes to every node that is listed for transactions and not down, and to no
/// other.
pub proof fn law_fan_out_covers(nodes: Seq<NodeEntry>, ids: Seq<String>, i: int)
    requires
        0 <= i < nodes.len(),
    ensures
        positions(nodes, listed_healthy(ids)).contains(i) == (text::views(ids).contains(
            nodes[i].config.id@,
        ) && nodes[i].health.spec_healthy()),
        positions(nodes, listed_healthy(ids)).no_duplicates(),
{
    lemma_positions(nodes, listed_healthy(ids));
    assert(listed_healthy(ids)(nodes[i]) == (text::views(ids).contains(nodes[i].config.id@)
        && nodes[i].health.spec_healthy()));
}

/// The answer is that of the first node that succeeds; where none does, the error is that of the
/// node that was tried last.
pub proof fn law_first_success_wins(
    order: Seq<usize>,
    results: Seq<Result<Reply, String>>,
    from: int,
    k: int,
)
    requires
        0 <= from <= k < order.len() == results.len(),
        forall|j: int| from <= j < k ==> #[trigger] results[j] is Err,
    ensures
        results[k] is Ok ==> tried_from(order, results, from) == Attempt::Answer(results[k]->Ok_0),
        results[k] is Err && k == order.len() - 1 ==> tried_from(order, results, from)
            == Attempt::GiveUp(results[k]->Err_0),
    decreases k - from,
{
    if from < k {
        law_first_success_wins(order, results, from + 1, k);
        assert(results[from] is Err);
    }
}

/// What follows from one node's result: the answer, where it is one, and the error that came last.
pub open spec fn after_result(last_err: Option<String>, result: Result<Reply, String>) -> (
    Option<Reply>,
    Option<String>,
) {
    match result {
        Ok(reply) => (Some(reply), last_err),
        Err(e) => (None, Some(e)),
    }
}

/// What a transaction that was sent to several nodes comes to, by their results in the order in
/// which they come: the results up to the first success are looked at.
pub open spec fn collected(results: Seq<Result<Reply, String>>, last_err: Option<String>) -> Result<
    Reply,
    Seq<char>,
>
    decreases results.len(),
{
    if results.len() == 0 {
        Err(given_up(last_err))
    } else {
        match after_result(last_err, results[0]) {
            (Some(reply), _) => Ok(reply),
            (None, err) => collected(results.drop_first(), err),
        }
    }
}

/// What is said when no node is left.
pub open spec fn given_up(last_err: Option<String>) -> Seq<char> {
    match last_err {
        Some(e) => e@,
        None => "All upstreams failed"@,
    }
}

/// A transaction that was sent to several nodes is answered with the first success that comes, and
/// fails only where every node failed, with the error that came last.
pub proof fn law_first_reply_wins(results: Seq<Result<Reply, String>>, last_err: Option<String>, k: int)
    requires
        0 <= k < results.len(),
        forall|j: int| 0 <= j < k ==> #[trigger] results[j] is Err,
    ensures
        results[k] is Ok ==> collected(results, last_err) == Ok::<Reply, Seq<char>>(results[k]->Ok_0),
        results[k] is Err && k == results.len() - 1 ==> collected(results, last_err)
            == Err::<Reply, Seq<char>>(results[k]->Err_0@),
    decreases k,
{
    reveal_with_fuel(collected, 2);
    if k > 0 {
        let rest = results.drop_first();
        assert(results[0] is Err);
        assert forall|j: int| 0 <= j < k - 1 implies #[trigger] rest[j] is Err by {
            assert(rest[j] == results[j + 1]);
        }
        law_first_reply_wins(rest, Some(results[0]->Err_0), k - 1);
    }
}

impl Attempts {
    /// The node that is tried now.
    pub open spec fn tried_now(self) -> usize {
        self.order@[self.at as int]
    }

    /// The node to try now.
    pub fn current(&self) -> (r: usize)
        requires
            self.at < self.order@.len(),
        ensures
            r == self.tried_now(),
    {
        self.order[self.at]
    }

    /// Takes the result of the current attempt, and says what to do next.
    pub fn on_result(&mut self, result: Result<Reply, String>) -> (r: Attempt)
        requires
            old(self).at < old(self).order@.len(),
        ensures
            is_next_attempt(*old(self), *final(self), result, r),
    {
        match result {
            Ok(reply) => Attempt::Answer(reply),
            Err(e) => {
                let count: usize = self.order.len();
                if self.at + 1 < count {
                    self.at = self.at + 1;
                    Attempt::Forward(self.order[self.at])
                } else {
                    Attempt::GiveUp(e)
                }
            },
        }
    }
}

impl SendCollector {
    /// No node has answered yet.
    pub fn new() -> (c: SendCollector)
        ensures
            c.last_err is None,
    {
        SendCollector { last_err: None }
    }

    /// Takes what one node came to: the first success is the answer.
    pub fn on_result(&mut self, result: Result<Reply, String>) -> (r: Option<Reply>)
        ensures
            (r, final(self).last_err) == after_result(old(self).last_err, result),
    {
        match result {
            Ok(reply) => Some(reply),
            Err(e) => {
                self.last_err = Some(e);
                None
            },
        }
    }

    /// All nodes have failed: the error of the one that failed last.
    pub fn finish(self) -> (r: String)
        ensures
            r@ == given_up(self.last_err),
    {
        match self.last_err {
            Some(e) => e,
            None => "All upstreams failed".to_string(),
        }
    }
}

impl Router {
    pub fn new(
        nodes: Vec<NodeEntry>,
        send_tx_node_ids: Vec<String>,
        grpc_node_ids: Vec<String>,
    ) -> (r: Router)
        ensures
            r == (Router { nodes, send_tx_node_ids, grpc_node_ids, heavy_rpc_counter: 0 }),
    {
        Router { nodes, send_tx_node_ids, grpc_node_ids, heavy_rpc_counter: 0 }
    }

    /// The nodes, in order.
    pub fn get_nodes(&self) -> (r: &Vec<NodeEntry>)
        ensures
            *r == self.nodes,
    {
        &self.nodes
    }

    /// The positions of the nodes that are not down.
    pub fn healthy_positions(&self) -> (r: Vec<usize>)
        ensures
            ints(r@) == positions(self.nodes@, healthy()),
    {
        let mut out: Vec<usize> = Vec::new();
        let mut i: usize = 0;
        assert(self.nodes@.take(0) =~= Seq::<NodeEntry>::empty());
        while i < self.nodes.len()
            invariant
                i <= self.nodes@.len(),
                ints(out@) == positions(self.nodes@.take(i as int), healthy()),
            decreases self.nodes@.len() - i,
        {
            let ghost before = out@;
            proof {
                lemma_positions_step(self.nodes@, healthy(), i as int);
            }
            if self.nodes[i].health.is_healthy() {
                out.push(i);
                assert(ints(out@) =~= ints(before).push(i as int));
            }
            i = i + 1;
        }
        assert(self.nodes@.take(i as int) =~= self.nodes@);
        out
    }

    /// The node that comes first among those at `among`.
    fn lowest(&self, among: &Vec<usize>, ok: Ghost<spec_fn(NodeEntry) -> bool>) -> (r: Option<
        &NodeEntry,
    >)
        requires
            ints(among@) == positions(self.nodes@, ok@),
        ensures
            is_pick(
                self.nodes@,
                ok@,
                match r {
                    Some(n) => Some(*n),
                    None => None,
                },
            ),
    {
        proof {
            lemma_positions(self.nodes@, ok@);
            assert(ints(among@).len() == among@.len());
            assert forall|a: int| 0 <= a < among@.len() implies #[trigger] ints(among@)[a]
                == among@[a] by {}
        }
        let ghost found = ints(among@);
        if among.len() == 0 {
            return None;
        }
        assert(found[0] == among@[0]);
        let mut best: usize = among[0];
        let mut k: usize = 1;
        while k < among.len()
            invariant
                1 <= k <= among@.len(),
                found == ints(among@),
                found == positions(self.nodes@, ok@),
                forall|a: int|
                    0 <= a < found.len() ==> 0 <= #[trigger] found[a] < self.nodes@.len() && ok@(
                        self.nodes@[found[a]],
                    ),
                forall|a: int, b: int|
                    0 <= a < b < found.len() ==> #[trigger] found[a] < #[trigger] found[b],
                exists|a: int| 0 <= a < k && #[trigger] found[a] == best,
                forall|a: int|
                    0 <= a < k && #[trigger] found[a] != best ==> comes_before(
                        self.nodes@,
                        best as int,
                        found[a],
                    ),
            decreases among@.len() - k,
        {
            assert(found[k as int] == among@[k as int]);
            if self.nodes[among[k]].config.priority < self.nodes[best].config.priority {
                best = among[k];
            }
            k = k + 1;
        }
        assert(is_first(self.nodes@, ok@, best as int)) by {
            assert forall|j: int|
                0 <= j < self.nodes@.len() && j != best && ok@(
                    #[trigger] self.nodes@[j],
                ) implies comes_before(self.nodes@, best as int, j) by {
                assert(found.contains(j));
                assert(found[found.index_of(j)] == j);
            }
        }
        Some(&self.nodes[best])
    }

    /// Pick the best healthy node for read RPCs (lowest priority)
    pub fn pick_read_node(&self) -> (r: Option<&NodeEntry>)
        ensures
            is_read_pick(self.nodes@, r),
    {
        let among = self.healthy_positions();
        self.lowest(&among, Ghost(healthy()))
    }

    /// Pick the best healthy node for WebSocket (lowest priority)
    pub fn pick_ws_node(&self) -> (r: Option<&NodeEntry>)
        ensures
            is_read_pick(self.nodes@, r),
    {
        self.pick_read_node()
    }

    /// Pick the best healthy node for gRPC from eligible regions
    pub fn pick_grpc_node(&self) -> (r: Option<&NodeEntry>)
        ensures
            is_grpc_pick(self.nodes@, self.grpc_node_ids@, r),
    {
        let ghost ok = listed_grpc_healthy(self.grpc_node_ids@);
        let mut among: Vec<usize> = Vec::new();
        let mut i: usize = 0;
        assert(self.nodes@.take(0) =~= Seq::<NodeEntry>::empty());
        while i < self.nodes.len()
            invariant
                i <= self.nodes@.len(),
                ok == listed_grpc_healthy(self.grpc_node_ids@),
                ints(among@) == positions(self.nodes@.take(i as int), ok),
            decreases self.nodes@.len() - i,
        {
            let ghost before = among@;
            proof {
                lemma_positions_step(self.nodes@, ok, i as int);
            }
            let node = &self.nodes[i];
            if text::contains_str(&self.grpc_node_ids, node.config.id.as_str())
                && node.health.is_healthy() && node.health.grpc_healthy {
                among.push(i);
                assert(ints(among@) =~= ints(before).push(i as int));
            }
            i = i + 1;
        }
        assert(self.nodes@.take(i as int) =~= self.nodes@);
        self.lowest(&among, Ghost(ok))
    }

    /// Get all gRPC-eligible nodes (no health filter: the multi-region mux manages its own
    /// per-region reconnection)
    pub fn get_grpc_eligible_nodes(&self) -> (r: Vec<usize>)
        ensures
            ints(r@) == positions(self.nodes@, listed(self.grpc_node_ids@)),
    {
        let ghost ok = listed(self.grpc_node_ids@);
        let mut out: Vec<usize> = Vec::new();
        let mut i: usize = 0;
        assert(self.nodes@.take(0) =~= Seq::<NodeEntry>::empty());
        while i < self.nodes.len()
            invariant
                i <= self.nodes@.len(),
                ok == listed(self.grpc_node_ids@),
                ints(out@) == positions(self.nodes@.take(i as int), ok),
            decreases self.nodes@.len() - i,
        {
            let ghost before = out@;
            proof {
                lemma_positions_step(self.nodes@, ok, i as int);
            }
            if text::contains_str(&self.grpc_node_ids, self.nodes[i].config.id.as_str()) {
                out.push(i);
                assert(ints(out@) =~= ints(before).push(i as int));
            }
            i = i + 1;
        }
        assert(self.nodes@.take(i as int) =~= self.nodes@);
        out
    }

    /// Where a transaction goes: every node that is listed for transactions and not down.
    pub fn fan_out_send_tx(&self) -> (r: Result<Vec<SendTarget>, String>)
        ensures
            is_fan_out(self.nodes@, self.send_tx_node_ids@, r),
    {
        let ghost ok = listed_healthy(self.send_tx_node_ids@);
        let mut out: Vec<SendTarget> = Vec::new();
        let mut i: usize = 0;
        assert(self.nodes@.take(0) =~= Seq::<NodeEntry>::empty());
        while i < self.nodes.len()
            invariant
                i <= self.nodes@.len(),
                ok == listed_healthy(self.send_tx_node_ids@),
                out@.map_values(|t: SendTarget| t.node as int) == positions(
                    self.nodes@.take(i as int),
                    ok,
                ),
                forall|k: int|
                    0 <= k < out@.len() ==> (#[trigger] out@[k]).url@ == send_url(
                        self.nodes@[out@[k].node as int],
                    ),
            decreases self.nodes@.len() - i,
        {
            let ghost before = out@;
            proof {
                lemma_positions_step(self.nodes@, ok, i as int);
            }
            let node = &self.nodes[i];
            if text::contains_str(&self.send_tx_node_ids, node.config.id.as_str())
                && node.health.is_healthy() {
                let url = match &node.config.iris_url {
                    Some(iris) => if node.health.iris_healthy {
                        iris.clone()
                    } else {
                        node.config.rpc_url.clone()
                    },
                    None => node.config.rpc_url.clone(),
                };
                out.push(SendTarget { node: i, url });
                assert(out@.map_values(|t: SendTarget| t.node as int) =~= before.map_values(
                    |t: SendTarget| t.node as int,
                ).push(i as int));
            }
            i = i + 1;
        }
        assert(self.nodes@.take(i as int) =~= self.nodes@);
        if out.len() == 0 {
            return Err("No healthy nodes for sendTransaction".to_string());
        }
        Ok(out)
    }

    /// Begins a heavy read (GPA, getTokenAccountsByOwner, etc.): the nodes that are not down, in
    /// turn, each request beginning one further than the one before.
    pub fn forward_heavy_rpc(&mut self) -> (r: Result<Attempts, String>)
        ensures
            final(self).nodes == old(self).nodes,
            final(self).send_tx_node_ids == old(self).send_tx_node_ids,
            final(self).grpc_node_ids == old(self).grpc_node_ids,
            is_heavy_read(
                old(self).nodes@,
                old(self).heavy_rpc_counter,
                final(self).heavy_rpc_counter,
                r,
            ),
    {
        let up = self.healthy_positions();
        let n: usize = up.len();
        assert(ints(up@).len() == n);
        if n == 0 {
            return Err("No healthy nodes for heavy RPC".to_string());
        }
        let start: usize = self.heavy_rpc_counter % n;
        self.heavy_rpc_counter = self.heavy_rpc_counter.wrapping_add(1);
        let mut order: Vec<usize> = Vec::new();
        let mut i: usize = 0;
        while i < n
            invariant
                i <= n,
                0 < n == up@.len(),
                start < n,
                order@.len() == i,
                forall|k: int|
                    0 <= k < i ==> #[trigger] order@[k] == up@[(start + k) % (n as int)],
            decreases n - i,
        {
            let at: usize = if i < n - start {
                start + i
            } else {
                i - (n - start)
            };
            proof {
                if start + i < n {
                    vstd::arithmetic::div_mod::lemma_small_mod((start + i) as nat, n as nat);
                } else {
                    vstd::arithmetic::div_mod::lemma_mod_sub_multiples_vanish(
                        (start + i) as int,
                        n as int,
                    );
                    vstd::arithmetic::div_mod::lemma_small_mod((start + i - n) as nat, n as nat);
                }
            }
            order.push(up[at]);
            i = i + 1;
        }
        assert(ints(order@) =~= heavy_order(old(self).nodes@, old(self).heavy_rpc_counter));
        Ok(Attempts { order, at: 0 })
    }

    /// Begins a read: the nodes that are not down, by priority.
    pub fn forward_read_rpc(&self) -> (r: Result<Attempts, String>)
        ensures
            is_read(self.nodes@, r),
    {
        let up = self.healthy_positions();
        let ghost found = ints(up@);
        proof {
            lemma_positions(self.nodes@, healthy());
            assert(found.len() == up@.len());
            assert forall|a: int| 0 <= a < up@.len() implies (#[trigger] up@[a])
                < self.nodes@.len() && healthy()(self.nodes@[up@[a] as int]) by {
                assert(found[a] == up@[a]);
            }
            assert forall|a: int, b: int| 0 <= a < b < up@.len() implies #[trigger] up@[a]
                < #[trigger] up@[b] by {
                assert(found[a] == up@[a] && found[b] == up@[b]);
            }
        }
        if up.len() == 0 {
            return Err("No healthy nodes".to_string());
        }
        let mut order: Vec<usize> = Vec::new();
        let mut i: usize = 0;
        while i < up.len()
            invariant
                i <= up@.len(),
                found == ints(up@),
                forall|a: int|
                    0 <= a < up@.len() ==> (#[trigger] up@[a]) < self.nodes@.len() && healthy()(
                        self.nodes@[up@[a] as int],
                    ),
                forall|a: int, b: int|
                    0 <= a < b < up@.len() ==> #[trigger] up@[a] < #[trigger] up@[b],
                order@.len() == i,
                forall|a: int|
                    0 <= a < order@.len() ==> order@[a] < self.nodes@.len() && healthy()(
                        self.nodes@[#[trigger] order@[a] as int],
                    ),
                forall|a: int|
                    0 <= a < order@.len() && i < up@.len() ==> #[trigger] order@[a] < up@[i as int],
                forall|k: int| 0 <= k < i ==> order@.contains(#[trigger] up@[k]),
                forall|a: int, b: int|
                    0 <= a < b < order@.len() ==> comes_before(
                        self.nodes@,
                        #[trigger] order@[a] as int,
                        #[trigger] order@[b] as int,
                    ),
            decreases up@.len() - i,
        {
            let node: usize = up[i];
            let priority: u32 = self.nodes[node].config.priority;
            let ghost before = order@;
            let mut at: usize = order.len();
            while at > 0 && self.nodes[order[at - 1]].config.priority > priority
                invariant
                    at <= order@.len(),
                    forall|a: int|
                        0 <= a < order@.len() ==> #[trigger] order@[a] < self.nodes@.len(),
                    forall|a: int|
                        at <= a < order@.len() ==> self.nodes@[#[trigger] order@[a] as int].config.priority
                            > priority,
                decreases at,
            {
                at = at - 1;
            }
            order.insert(at, node);
            proof {
                let after = order@;
                assert(after =~= before.insert(at as int, node));
                assert forall|k: int| 0 <= k < i + 1 implies after.contains(#[trigger] up@[k]) by {
                    if k < i {
                        let p = before.index_of(up@[k]);
                        if p < at {
                            assert(after[p] == up@[k]);
                        } else {
                            assert(after[p + 1] == up@[k]);
                        }
                    } else {
                        assert(after[at as int] == node);
                    }
                }
                assert forall|a: int| 0 <= a < after.len() implies after[a] < self.nodes@.len()
                    && healthy()(self.nodes@[#[trigger] after[a] as int]) && (i + 1 < up@.len()
                    ==> after[a] < up@[i + 1]) by {
                    if a < at {
                        assert(after[a] == before[a]);
                    } else if a > at {
                        assert(after[a] == before[a - 1]);
                    }
                }
                assert forall|a: int, b: int| 0 <= a < b < after.len() implies comes_before(
                    self.nodes@,
                    #[trigger] after[a] as int,
                    #[trigger] after[b] as int,
                ) by {
                    let a0 = if a < at { a } else { a - 1 };
                    let b0 = if b < at { b } else { b - 1 };
                    if a != at {
                        assert(after[a] == before[a0]);
                    }
                    if b != at {
                        assert(after[b] == before[b0]);
                    }
                    if b == at && at > 0 {
                        if a < at - 1 {
                            assert(comes_before(
                                self.nodes@,
                                before[a] as int,
                                before[at - 1] as int,
                            ));
                        }
                    }
                }
            }
            i = i + 1;
        }
        assert forall|j: int|
            0 <= j < self.nodes@.len() && healthy()(
                #[trigger] self.nodes@[j],
            ) implies order@.contains(j as usize) by {
            assert(found.contains(j));
            let k = found.index_of(j);
            assert(up@[k] == j);
        }
        Ok(Attempts { order, at: 0 })
    }
}

} // verus!
