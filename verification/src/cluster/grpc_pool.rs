//! The gRPC channels of the nodes: which are connected, and who connects the others.

use crate::codec;
use crate::config::NodeConfig;
use crate::names::NameMap;
use crate::proxy::status::{GrpcCode, GrpcStatus};
use crate::text;
use vstd::prelude::*;
use vstd::string::StringExecFns;

verus! {

/// Seconds that a caller waits for another one to connect.
pub const RECONNECT_WAIT_SECS: u64 = 10;

/// A channel to one node, shared by all callers.
#[derive(Debug)]
pub struct ManagedChannel {
    pub node_id: String,
    /// Where it is connected to.
    pub url: String,
    /// A channel is there to be used.
    pub connected: bool,
    /// Some caller is connecting.
    pub connecting: bool,
}

/// What a caller who wants the channel has to do.
#[derive(Debug, Clone, Copy, PartialEq, Eq, Structural)]
pub enum ChannelNext {
    /// Use the channel that is there.
    Use,
    /// Connect, and say what came of it.
    Connect,
    /// Wait for the caller who is connecting.
    Wait,
}

/// The channels by node id.
pub struct GrpcPool {
    pub channels: NameMap<ManagedChannel>,
}

/// What is said of a URL that was refused with the given error.
pub open spec fn channel_error_given(node_id: Seq<char>, refusal: Option<Seq<char>>) -> Option<
    Seq<char>,
> {
    match refusal {
        Some(e) => Some("Invalid gRPC URL for "@ + node_id + ": "@ + e),
        None => None,
    }
}

/// The channel is new: not connected, and nobody is connecting.
pub open spec fn is_fresh(c: ManagedChannel, node_id: Seq<char>, url: Seq<char>) -> bool {
    c.node_id@ == node_id && c.url@ == url && !c.connected && !c.connecting
}

/// The URL that the channel of a node is connected to: that of the last node with this id whose URL
/// allows a channel, if there is one.
pub open spec fn pooled_url(nodes: Seq<NodeConfig>, id: Seq<char>) -> Option<Seq<char>>
    decreases nodes.len(),
{
    if nodes.len() == 0 {
        None
    } else if nodes.last().id@ == id && codec::endpoint_refusal(nodes.last().grpc_url@) is None {
        Some(nodes.last().grpc_url@)
    } else {
        pooled_url(nodes.drop_last(), id)
    }
}

/// Some node of the list has this id, is eligible, and has a URL for which a channel can be made.
pub open spec fn pooled(nodes: Seq<NodeConfig>, eligible: Seq<String>, id: Seq<char>) -> bool {
    text::views(eligible).contains(id) && pooled_url(nodes, id) is Some
}

/// What a caller who wants the channel has to do.
pub open spec fn next_for(c: ManagedChannel) -> ChannelNext {
    if c.connected {
        ChannelNext::Use
    } else if c.connecting {
        ChannelNext::Wait
    } else {
        ChannelNext::Connect
    }
}

/// The channel after a caller has wanted it.
pub open spec fn after_request(c: ManagedChannel) -> ManagedChannel {
    ManagedChannel { connecting: c.connecting || next_for(c) == ChannelNext::Connect, ..c }
}

/// A channel that is not connected, or the reason why there can be none.
pub open spec fn is_made(
    node_id: Seq<char>,
    url: Seq<char>,
    refusal: Option<Seq<char>>,
    r: Result<ManagedChannel, String>,
) -> bool {
    match r {
        Ok(c) => refusal is None && is_fresh(c, node_id, url),
        Err(e) => channel_error_given(node_id, refusal) == Some(e@),
    }
}

/// What a caller who wants a new connection has to do.
pub open spec fn is_reconnecting(
    before: ManagedChannel,
    after: ManagedChannel,
    r: ChannelNext,
) -> bool {
    &&& r == if before.connecting {
        ChannelNext::Wait
    } else {
        ChannelNext::Connect
    }
    &&& after == (ManagedChannel { connecting: true, ..before })
}

/// The channel after connecting it has ended.
pub open spec fn after_connect(c: ManagedChannel, succeeded: bool) -> ManagedChannel {
    ManagedChannel { connecting: false, connected: c.connected || succeeded, ..c }
}

/// What the caller who connected is told.
pub open spec fn is_connect_outcome(
    node_id: Seq<char>,
    result: Result<(), String>,
    r: Result<(), GrpcStatus>,
) -> bool {
    match r {
        Ok(_) => result is Ok,
        Err(s) => result is Err && s.says(
            GrpcCode::Unavailable,
            "gRPC connect failed for "@ + node_id + ": "@ + result->Err_0@,
        ),
    }
}

/// What a caller who waited is told.
pub open spec fn has_waited(c: ManagedChannel, in_time: bool, r: Result<(), GrpcStatus>) -> bool {
    match r {
        Ok(_) => in_time && c.connected,
        Err(s) => if in_time {
            &&& !c.connected
            &&& s.says(GrpcCode::Unavailable, "gRPC reconnect failed for "@ + c.node_id@)
        } else {
            s.says(GrpcCode::Unavailable, "gRPC reconnect timed out for "@ + c.node_id@)
        },
    }
}

/// The channel once it has been given up.
pub open spec fn given_up(c: ManagedChannel) -> ManagedChannel {
    ManagedChannel { connected: false, ..c }
}

/// The pool has new channels, for the nodes that are eligible and whose URLs allow it.
pub open spec fn is_new_pool(nodes: Seq<NodeConfig>, eligible: Seq<String>, p: GrpcPool) -> bool {
    &&& forall|id: Seq<char>| #[trigger]
        p.channels@.contains_key(id) == pooled(nodes, eligible, id)
    &&& forall|id: Seq<char>| #[trigger]
        p.channels@.contains_key(id) ==> is_fresh(
            p.channels@[id],
            id,
            pooled_url(nodes, id)->0,
        )
}

/// What a caller who wants the channel of a node is told, and what becomes of the pool.
pub open spec fn is_requested(
    before: GrpcPool,
    after: GrpcPool,
    node_id: Seq<char>,
    r: Option<ChannelNext>,
) -> bool {
    match r {
        Some(next) => {
            let c = before.channels@[node_id];
            &&& before.channels@.contains_key(node_id)
            &&& next == next_for(c)
            &&& after.channels@ == before.channels@.insert(node_id, after_request(c))
        },
        None => !before.channels@.contains_key(node_id) && after == before,
    }
}

/// What the caller who connected the channel of a node is told, and what becomes of the pool.
pub open spec fn is_connect_done(
    before: GrpcPool,
    after: GrpcPool,
    node_id: Seq<char>,
    result: Result<(), String>,
    r: Option<Result<(), GrpcStatus>>,
) -> bool {
    match r {
        Some(outcome) => {
            &&& before.channels@.contains_key(node_id)
            &&& is_connect_outcome(node_id, result, outcome)
            &&& after.channels@ == before.channels@.insert(
                node_id,
                after_connect(before.channels@[node_id], result is Ok),
            )
        },
        None => !before.channels@.contains_key(node_id) && after == before,
    }
}

/// The channels once that of a node has been given up.
pub open spec fn without_connection(
    channels: Map<Seq<char>, ManagedChannel>,
    node_id: Seq<char>,
) -> Map<Seq<char>, ManagedChannel> {
    if channels.contains_key(node_id) {
        channels.insert(node_id, given_up(channels[node_id]))
    } else {
        channels
    }
}

impl ManagedChannel {
    /// A channel that is not connected, or the reason why there can be none, given how its URL was
    /// refused.
    pub fn with_refusal(node_id: String, url: &str, refusal: Option<String>) -> (r: Result<
        ManagedChannel,
        String,
    >)
        ensures
            is_made(node_id@, url@, text::opt_view(refusal), r),
    {
        match refusal {
            Some(e) => {
                let mut s = text::concat("Invalid gRPC URL for ", node_id.as_str());
                s.append(": ");
                s.append(e.as_str());
                Err(s)
            },
            None => Ok(
                ManagedChannel {
                    node_id,
                    url: url.to_string(),
                    connected: false,
                    connecting: false,
                },
            ),
        }
    }

    /// A channel that is not connected, or the reason why there can be none.
    pub fn new(node_id: String, url: &str) -> (r: Result<ManagedChannel, String>)
        ensures
            is_made(node_id@, url@, codec::endpoint_refusal(url@), r),
    {
        ManagedChannel::with_refusal(node_id, url, codec::endpoint_error(url))
    }

    /// What a caller who wants the channel has to do.
    pub fn get(&mut self) -> (r: ChannelNext)
        ensures
            r == next_for(*old(self)),
            *final(self) == after_request(*old(self)),
    {
        if self.connected {
            ChannelNext::Use
        } else {
            self.reconnect()
        }
    }

    /// What a caller who wants a new connection has to do: connect, unless another one is at it.
    pub fn reconnect(&mut self) -> (r: ChannelNext)
        ensures
            is_reconnecting(*old(self), *final(self), r),
    {
        if self.connecting {
            ChannelNext::Wait
        } else {
            self.connecting = true;
            ChannelNext::Connect
        }
    }

    /// Takes what came of connecting.
    pub fn connect_done(&mut self, result: Result<(), String>) -> (r: Result<(), GrpcStatus>)
        ensures
            *final(self) == after_connect(*old(self), result is Ok),
            is_connect_outcome(old(self).node_id@, result, r),
    {
        self.connecting = false;
        match result {
            Ok(_) => {
                self.connected = true;
                Ok(())
            },
            Err(e) => {
                let mut s = text::concat("gRPC connect failed for ", self.node_id.as_str());
                s.append(": ");
                s.append(e.as_str());
                Err(GrpcStatus::of(GrpcCode::Unavailable, s))
            },
        }
    }

    /// What comes of having waited: the channel, where the other caller connected it in time.
    pub fn waited(&self, in_time: bool) -> (r: Result<(), GrpcStatus>)
        ensures
            has_waited(*self, in_time, r),
    {
        if !in_time {
            return Err(
                GrpcStatus::of(
                    GrpcCode::Unavailable,
                    text::concat("gRPC reconnect timed out for ", self.node_id.as_str()),
                ),
            );
        }
        if self.connected {
            Ok(())
        } else {
            Err(
                GrpcStatus::of(
                    GrpcCode::Unavailable,
                    text::concat("gRPC reconnect failed for ", self.node_id.as_str()),
                ),
            )
        }
    }

    /// Gives the channel up; the next caller connects anew.
    pub fn invalidate(&mut self)
        ensures
            *final(self) == given_up(*old(self)),
    {
        self.connected = false;
    }
}

impl GrpcPool {
    /// No node id occurs twice, and each channel is that of its node.
    pub open spec fn wf(self) -> bool {
        &&& self.channels.wf()
        &&& forall|id: Seq<char>| #[trigger]
            self.channels@.contains_key(id) ==> self.channels@[id].node_id@ == id
    }

    /// Channels for the nodes that are eligible, where their URLs allow it; of two nodes with one id
    /// the later counts.
    pub fn new(nodes: &Vec<NodeConfig>, eligible_ids: &Vec<String>) -> (p: GrpcPool)
        ensures
            p.wf(),
            is_new_pool(nodes@, eligible_ids@, p),
    {
        let mut channels: NameMap<ManagedChannel> = NameMap::new();
        let mut i: usize = 0;
        while i < nodes.len()
            invariant
                i <= nodes@.len(),
                channels.wf(),
                forall|id: Seq<char>| #[trigger]
                    channels@.contains_key(id) == pooled(
                        nodes@.take(i as int),
                        eligible_ids@,
                        id,
                    ),
                forall|id: Seq<char>| #[trigger]
                    channels@.contains_key(id) ==> is_fresh(
                        channels@[id],
                        id,
                        pooled_url(nodes@.take(i as int), id)->0,
                    ),
            decreases nodes@.len() - i,
        {
            assert(nodes@.take(i + 1).drop_last() =~= nodes@.take(i as int));
            let node = &nodes[i];
            if text::contains_str(eligible_ids, node.id.as_str()) {
                match ManagedChannel::new(node.id.clone(), node.grpc_url.as_str()) {
                    Ok(ch) => {
                        channels.insert(node.id.clone(), ch);
                    },
                    Err(_) => {},
                }
            }
            i = i + 1;
        }
        assert(nodes@.take(i as int) =~= nodes@);
        GrpcPool { channels }
    }

    /// The channel of a node, where there is one.
    pub fn get_channel(&self, node_id: &str) -> (r: Option<&ManagedChannel>)
        requires
            self.wf(),
        ensures
            match r {
                Some(c) => self.channels@.contains_key(node_id@) && self.channels@[node_id@] == *c,
                None => !self.channels@.contains_key(node_id@),
            },
    {
        self.channels.get(node_id)
    }

    /// What a caller who wants the channel of a node has to do; nothing where there is none.
    pub fn request(&mut self, node_id: &str) -> (r: Option<ChannelNext>)
        requires
            old(self).wf(),
        ensures
            final(self).wf(),
            is_requested(*old(self), *final(self), node_id@, r),
    {
        let ghost before = self.channels;
        match self.channels.find(node_id) {
            Some(i) => {
                let next = self.channels.entries[i].1.get();
                proof {
                    self.channels.lemma_value_replaced(before, i as int);
                }
                Some(next)
            },
            None => None,
        }
    }

    /// Takes what came of connecting the channel of a node.
    pub fn connect_done(&mut self, node_id: &str, result: Result<(), String>) -> (r: Option<
        Result<(), GrpcStatus>,
    >)
        requires
            old(self).wf(),
        ensures
            final(self).wf(),
            is_connect_done(*old(self), *final(self), node_id@, result, r),
    {
        let ghost before = self.channels;
        match self.channels.find(node_id) {
            Some(i) => {
                let outcome = self.channels.entries[i].1.connect_done(result);
                proof {
                    self.channels.lemma_value_replaced(before, i as int);
                }
                Some(outcome)
            },
            None => None,
        }
    }

    /// Gives the channel of a node up, where there is one.
    pub fn invalidate(&mut self, node_id: &str)
        requires
            old(self).wf(),
        ensures
            final(self).wf(),
            final(self).channels@ == without_connection(old(self).channels@, node_id@),
    {
        let ghost before = self.channels;
        if let Some(i) = self.channels.find(node_id) {
            self.channels.entries[i].1.invalidate();
            proof {
                self.channels.lemma_value_replaced(before, i as int);
            }
        }
    }
}

/// Once a caller has been told to connect, no other one is until that has ended, even where the
/// channel is given up in between.
pub proof fn law_one_caller_connects(c: ManagedChannel)
    requires
        next_for(c) == ChannelNext::Connect,
    ensures
        next_for(after_request(c)) == ChannelNext::Wait,
        after_request(after_request(c)) == after_request(c),
        next_for(ManagedChannel { connected: false, ..after_request(c) }) == ChannelNext::Wait,
{
}

/// A channel that was connected is used until it is given up, and is then connected anew.
pub proof fn law_connected_until_given_up(c: ManagedChannel)
    requires
        next_for(c) == ChannelNext::Connect,
    ensures
        ({
            let up = ManagedChannel { connecting: false, connected: true, ..after_request(c) };
            &&& next_for(up) == ChannelNext::Use
            &&& after_request(up) == up
            &&& next_for(ManagedChannel { connected: false, ..up }) == ChannelNext::Connect
        }),
{
}

/// A node has a channel exactly where it is eligible and some node with its id has a URL for which one
/// can be made; it goes to the URL of the last such node, is not connected, and nobody connects it.
pub proof fn law_pool_has_the_nodes_that_can_serve(
    nodes: Seq<NodeConfig>,
    eligible: Seq<String>,
    p: GrpcPool,
    id: Seq<char>,
)
    requires
        is_new_pool(nodes, eligible, p),
    ensures
        p.channels@.contains_key(id) <==> {
            &&& text::views(eligible).contains(id)
            &&& exists|i: int|
                0 <= i < nodes.len() && (#[trigger] nodes[i]).id@ == id && codec::endpoint_refusal(
                    nodes[i].grpc_url@,
                ) is None
        },
        p.channels@.contains_key(id) ==> {
            let c = p.channels@[id];
            &&& c.node_id@ == id
            &&& !c.connected
            &&& !c.connecting
            &&& exists|i: int|
                {
                    &&& 0 <= i < nodes.len()
                    &&& (#[trigger] nodes[i]).id@ == id
                    &&& c.url@ == nodes[i].grpc_url@
                    &&& forall|j: int|
                        i < j < nodes.len() && (#[trigger] nodes[j]).id@ == id
                            ==> codec::endpoint_refusal(nodes[j].grpc_url@) is Some
                }
        },
{
    lemma_last_usable(nodes, id);
}

proof fn lemma_last_usable(nodes: Seq<NodeConfig>, id: Seq<char>)
    ensures
        pooled_url(nodes, id) is Some <==> exists|i: int|
            0 <= i < nodes.len() && (#[trigger] nodes[i]).id@ == id && codec::endpoint_refusal(
                nodes[i].grpc_url@,
            ) is None,
        pooled_url(nodes, id) is Some ==> exists|i: int|
            {
                &&& 0 <= i < nodes.len()
                &&& (#[trigger] nodes[i]).id@ == id
                &&& pooled_url(nodes, id) == Some(nodes[i].grpc_url@)
                &&& forall|j: int|
                    i < j < nodes.len() && (#[trigger] nodes[j]).id@ == id
                        ==> codec::endpoint_refusal(nodes[j].grpc_url@) is Some
            },
    decreases nodes.len(),
{
    if nodes.len() > 0 {
        let rest = nodes.drop_last();
        let n = nodes.len() - 1;
        lemma_last_usable(rest, id);
        assert forall|i: int| 0 <= i < rest.len() implies #[trigger] nodes[i] == rest[i] by {}
        if nodes[n].id@ == id && codec::endpoint_refusal(nodes[n].grpc_url@) is None {
            assert(pooled_url(nodes, id) == Some(nodes[n].grpc_url@));
        } else {
            assert(pooled_url(nodes, id) == pooled_url(rest, id));
            if pooled_url(rest, id) is Some {
                let i = choose|i: int|
                    {
                        &&& 0 <= i < rest.len()
                        &&& (#[trigger] rest[i]).id@ == id
                        &&& pooled_url(rest, id) == Some(rest[i].grpc_url@)
                        &&& forall|j: int|
                            i < j < rest.len() && (#[trigger] rest[j]).id@ == id
                                ==> codec::endpoint_refusal(rest[j].grpc_url@) is Some
                    };
                assert(nodes[i] == rest[i]);
                assert forall|j: int|
                    i < j < nodes.len() && (#[trigger] nodes[j]).id@ == id implies codec::endpoint_refusal(
                nodes[j].grpc_url@) is Some by {
                    if j < n {
                        assert(rest[j] == nodes[j]);
                    }
                }
                let k = choose|k: int|
                    0 <= k < rest.len() && (#[trigger] rest[k]).id@ == id
                        && codec::endpoint_refusal(rest[k].grpc_url@) is None;
                assert(nodes[k] == rest[k]);
            }
            if exists|k: int|
                0 <= k < nodes.len() && (#[trigger] nodes[k]).id@ == id && codec::endpoint_refusal(
                    nodes[k].grpc_url@,
                ) is None {
                let k = choose|k: int|
                    0 <= k < nodes.len() && (#[trigger] nodes[k]).id@ == id
                        && codec::endpoint_refusal(nodes[k].grpc_url@) is None;
                assert(rest[k] == nodes[k]);
            }
        }
    }
}

/// A channel is made where its URL is not refused, for the node and the URL that were given.
pub proof fn law_channel_is_made_for_its_node(
    node_id: Seq<char>,
    url: Seq<char>,
    refusal: Option<Seq<char>>,
    r: Result<ManagedChannel, String>,
)
    requires
        is_made(node_id, url, refusal, r),
    ensures
        r is Ok <==> refusal is None,
        r matches Ok(c) ==> c.node_id@ == node_id && c.url@ == url && !c.connected && !c.connecting,
        r matches Err(e) ==> e@ == "Invalid gRPC URL for "@ + node_id + ": "@ + refusal->0,
{
}

/// A caller uses the channel of a node while it is connected; where it is not, the first caller connects
/// and the others wait. One who wants a new connection does so whether there is one or not. No other
/// node's channel changes.
pub proof fn law_first_caller_connects(
    before: GrpcPool,
    after: GrpcPool,
    node_id: Seq<char>,
    r: Option<ChannelNext>,
    other: Seq<char>,
    c: ManagedChannel,
    d: ManagedChannel,
    next: ChannelNext,
)
    requires
        is_requested(before, after, node_id, r),
        is_reconnecting(c, d, next),
    ensures
        r is Some <==> before.channels@.contains_key(node_id),
        r is Some ==> {
            let was = before.channels@[node_id];
            &&& r == Some(ChannelNext::Use) <==> was.connected
            &&& r == Some(ChannelNext::Connect) <==> !was.connected && !was.connecting
            &&& r == Some(ChannelNext::Wait) <==> !was.connected && was.connecting
            &&& after.channels@.contains_key(node_id)
            &&& after.channels@[node_id].connected == was.connected
            &&& after.channels@[node_id].connecting == (was.connecting || !was.connected)
            &&& after.channels@[node_id].url == was.url
        },
        other != node_id ==> {
            &&& after.channels@.contains_key(other) <==> before.channels@.contains_key(other)
            &&& before.channels@.contains_key(other) ==> after.channels@[other]
                == before.channels@[other]
        },
        next == ChannelNext::Wait <==> c.connecting,
        next == ChannelNext::Connect <==> !c.connecting,
        d.connecting,
        d.connected == c.connected,
{
}

/// When connecting has ended, nobody connects any more; the channel is connected where that succeeded,
/// and stays so where it was before. The caller is told what came of it. No other node's channel changes.
pub proof fn law_connecting_ends_for_all(
    before: GrpcPool,
    after: GrpcPool,
    node_id: Seq<char>,
    result: Result<(), String>,
    r: Option<Result<(), GrpcStatus>>,
    other: Seq<char>,
)
    requires
        is_connect_done(before, after, node_id, result, r),
    ensures
        r is Some <==> before.channels@.contains_key(node_id),
        r is Some ==> {
            let was = before.channels@[node_id];
            let now = after.channels@[node_id];
            &&& r->0 is Ok <==> result is Ok
            &&& r->0 is Err ==> r->0->Err_0.code == GrpcCode::Unavailable
                && r->0->Err_0.message@ == "gRPC connect failed for "@ + node_id + ": "@
                + result->Err_0@
            &&& !now.connecting
            &&& now.connected <==> was.connected || result is Ok
            &&& now.node_id == was.node_id
            &&& now.url == was.url
        },
        r is None ==> after == before,
        other != node_id ==> {
            &&& after.channels@.contains_key(other) <==> before.channels@.contains_key(other)
            &&& before.channels@.contains_key(other) ==> after.channels@[other]
                == before.channels@[other]
        },
{
}

/// One who waited has the channel exactly where it was connected in time.
pub proof fn law_waiting_pays_only_in_time(
    c: ManagedChannel,
    in_time: bool,
    r: Result<(), GrpcStatus>,
)
    requires
        has_waited(c, in_time, r),
    ensures
        r is Ok <==> in_time && c.connected,
        r is Err ==> r->Err_0.code == GrpcCode::Unavailable,
        r is Err && in_time ==> r->Err_0.message@ == "gRPC reconnect failed for "@ + c.node_id@,
        r is Err && !in_time ==> r->Err_0.message@ == "gRPC reconnect timed out for "@ + c.node_id@,
{
}

/// A channel that is given up is not connected any more; who connects it still does, and no other node's
/// channel changes.
pub proof fn law_only_the_one_is_given_up(
    channels: Map<Seq<char>, ManagedChannel>,
    node_id: Seq<char>,
    other: Seq<char>,
)
    ensures
        ({
            let after = without_connection(channels, node_id);
            &&& after.contains_key(other) <==> channels.contains_key(other)
            &&& channels.contains_key(other) && other != node_id ==> after[other]
                == channels[other]
            &&& channels.contains_key(node_id) ==> {
                &&& !after[node_id].connected
                &&& after[node_id].connecting == channels[node_id].connecting
                &&& after[node_id].url == channels[node_id].url
                &&& after[node_id].node_id == channels[node_id].node_id
            }
        }),
{
}

} // verus!
