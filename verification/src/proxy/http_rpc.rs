//! The JSON-RPC proxy: which requests pass, what kind they are, and how they are answered.

use crate::cluster::router::Reply;
use crate::codec;
use crate::middleware::rate_limiter::RateLimiterMiddleware;
use crate::net;
use crate::net::IpAddr;
use crate::proxy::gate::Gate;
use crate::stats;
use crate::stats::{Conn, Stats, Tally};
use crate::text;
use vstd::prelude::*;
use vstd::string::StringExecFns;

verus! {

/// The longest request body that is taken, in bytes.
pub const MAX_BODY_SIZE: usize = 1024 * 1024;

pub const STATUS_BAD_REQUEST: u16 = 400;

pub const STATUS_FORBIDDEN: u16 = 403;

pub const STATUS_TOO_MANY_REQUESTS: u16 = 429;

pub const STATUS_BAD_GATEWAY: u16 = 502;

/// The kind of a request, which decides where it goes.
#[derive(Debug, Clone, Copy, PartialEq, Eq, Structural)]
pub enum RpcMethod {
    SendTransaction,
    SendTransactionBatch,
    HeavyReadRpc,
    ReadRpc,
}

/// Which limit a request answers to.
#[derive(Debug, Clone, Copy, PartialEq, Eq, Structural)]
pub enum LimitKind {
    ByKey,
    ByIp,
}

/// How a request is handed to the nodes.
#[derive(Debug, Clone, Copy, PartialEq, Eq, Structural)]
pub enum RpcRoute {
    /// To all nodes for transactions at once; the first success is the answer.
    FanOut,
    /// To one node after the other, each request beginning one node further.
    RoundRobin,
    /// To one node after the other, by priority.
    ByPriority,
}

/// The kind of a request with this body.
pub open spec fn kind_of(body: Seq<u8>) -> RpcMethod {
    if text::mentions(body, "sendTransactionBatch"@) {
        RpcMethod::SendTransactionBatch
    } else if text::mentions(body, "sendTransaction"@) {
        RpcMethod::SendTransaction
    } else if text::mentions(body, "getProgramAccounts"@) || text::mentions(
        body,
        "getTokenAccountsByOwner"@,
    ) || text::mentions(body, "getTokenAccountsByDelegate"@) || text::mentions(
        body,
        "getTokenLargestAccounts"@,
    ) || text::mentions(body, "getLargestAccounts"@) || text::mentions(body, "getSupply"@) {
        RpcMethod::HeavyReadRpc
    } else {
        RpcMethod::ReadRpc
    }
}

/// Whether a request of this kind sends transactions.
pub open spec fn sends(method: RpcMethod) -> bool {
    method == RpcMethod::SendTransaction || method == RpcMethod::SendTransactionBatch
}

/// How a request of this kind is handed to the nodes.
pub open spec fn route_for(method: RpcMethod) -> RpcRoute {
    if sends(method) {
        RpcRoute::FanOut
    } else if method == RpcMethod::HeavyReadRpc {
        RpcRoute::RoundRobin
    } else {
        RpcRoute::ByPriority
    }
}

/// The kind of a request with this body.
pub fn classify_rpc(body: &[u8]) -> (r: RpcMethod)
    ensures
        r == kind_of(body@),
{
    proof {
        reveal_strlit("sendTransactionBatch");
        reveal_strlit("sendTransaction");
        reveal_strlit("getProgramAccounts");
        reveal_strlit("getTokenAccountsByOwner");
        reveal_strlit("getTokenAccountsByDelegate");
        reveal_strlit("getTokenLargestAccounts");
        reveal_strlit("getLargestAccounts");
        reveal_strlit("getSupply");
    }
    if text::holds_word(body, "sendTransactionBatch") {
        RpcMethod::SendTransactionBatch
    } else if text::holds_word(body, "sendTransaction") {
        RpcMethod::SendTransaction
    } else if text::holds_word(body, "getProgramAccounts") || text::holds_word(
        body,
        "getTokenAccountsByOwner",
    ) || text::holds_word(body, "getTokenAccountsByDelegate") || text::holds_word(
        body,
        "getTokenLargestAccounts",
    ) || text::holds_word(body, "getLargestAccounts") || text::holds_word(body, "getSupply") {
        RpcMethod::HeavyReadRpc
    } else {
        RpcMethod::ReadRpc
    }
}

/// A body counts as sending transactions exactly where `sendTransaction` occurs in it, whatever
/// else does.
pub proof fn law_sending_is_never_overlooked(body: Seq<u8>)
    ensures
        sends(kind_of(body)) == text::mentions(body, "sendTransaction"@),
{
    reveal_strlit("sendTransactionBatch");
    reveal_strlit("sendTransaction");
    reveal_strlit("Batch");
    assert("sendTransactionBatch"@ =~= "sendTransaction"@ + "Batch"@);
    if text::mentions(body, "sendTransactionBatch"@) {
        text::lemma_mentions_beginning(body, "sendTransaction"@, "Batch"@);
    }
}

/// How a request of this kind is handed to the nodes: transactions go to all of them, heavy reads go
/// round, and other reads go by priority.
pub fn route_of(method: RpcMethod) -> (r: RpcRoute)
    ensures
        r == route_for(method),
{
    match method {
        RpcMethod::SendTransaction | RpcMethod::SendTransactionBatch => RpcRoute::FanOut,
        RpcMethod::HeavyReadRpc => RpcRoute::RoundRobin,
        RpcMethod::ReadRpc => RpcRoute::ByPriority,
    }
}

/// The body of an error: a JSON-RPC error object with the negated status as its code, and the
/// message as a JSON string.
pub open spec fn error_text(status: u16, quoted: Seq<char>) -> Seq<char> {
    "{\"error\":{\"code\":-"@ + text::decimal(status as nat) + ",\"message\":"@ + quoted
        + "},\"id\":null,\"jsonrpc\":\"2.0\"}"@
}

/// The reply is the error with this status and message.
pub open spec fn is_error(r: Reply, status: u16, message: Seq<char>) -> bool {
    &&& r.status == status
    &&& r.body@ == vstd::utf8::encode_utf8(error_text(status, codec::json_string(message)))
}

/// The message for a request that met a limit.
pub open spec fn limit_message(is_tps: bool) -> Seq<char> {
    if is_tps {
        "TPS rate limit exceeded"@
    } else {
        "RPS rate limit exceeded"@
    }
}

/// The error with this status, its message given as a JSON string.
pub fn error_with_quoted(status: u16, quoted: &str) -> (r: Reply)
    requires
        status > 0,
    ensures
        r.status == status,
        r.body@ == vstd::utf8::encode_utf8(error_text(status, quoted@)),
{
    let mut s = "{\"error\":{\"code\":-".to_string();
    text::push_decimal(&mut s, status as u64);
    s.append(",\"message\":");
    s.append(quoted);
    s.append("},\"id\":null,\"jsonrpc\":\"2.0\"}");
    Reply { status, body: text::bytes_of(s.as_str()) }
}

/// The error with this status and message.
pub fn json_error_response(status: u16, message: &str) -> (r: Reply)
    requires
        status > 0,
    ensures
        is_error(r, status, message@),
{
    let quoted = codec::json_quote(message);
    error_with_quoted(status, quoted.as_str())
}

/// The bytes of a body, where there is one.
pub open spec fn bytes_in(body: Option<&Vec<u8>>) -> Option<Seq<u8>> {
    match body {
        Some(b) => Some(b@),
        None => None,
    }
}

/// A request that has passed the whitelist or the keys.
pub struct HttpRequest {
    pub ip: IpAddr,
    /// The key that the client sent, in use or not.
    pub api_key: Option<String>,
    pub authed_by_key: bool,
}

impl HttpRequest {
    /// Which limit the request answers to: that of its key where the key is in use, else that of its
    /// address.
    pub open spec fn limit_kind(self) -> LimitKind {
        if self.authed_by_key && self.api_key is Some {
            LimitKind::ByKey
        } else {
            LimitKind::ByIp
        }
    }

    /// The limiters after those were asked that the request answers to, with what they answered.
    pub open spec fn limit_asked(
        self,
        before: RateLimiterMiddleware,
        after: RateLimiterMiddleware,
        is_send_tx: bool,
        r: Result<(), bool>,
    ) -> bool {
        match self.limit_kind() {
            LimitKind::ByKey => after.asked_by_key(before, self.api_key->0@, is_send_tx, r),
            LimitKind::ByIp => after.asked_by_ip(before, self.ip, is_send_tx, r),
        }
    }

    /// What is counted when the request is let through: the request, and that it runs.
    pub open spec fn let_through(
        self,
        before: Stats,
        after: Stats,
        is_send_tx: bool,
        now_ms: u64,
    ) -> bool {
        let key = net::ip_key(self.ip);
        let was = stats::stats_or_zero(before.by_ip(), key);
        &&& after.by_ip() == before.by_ip().insert(
            key,
            stats::after_enter(stats::after_rpc(was, is_send_tx, now_ms), Conn::Rpc),
        )
        &&& after.global_total_requests == before.global_total_requests.wrapping_add(1)
        &&& after.global_rps_current == before.global_rps_current.wrapping_add(1)
        &&& after.global_tps_current == if is_send_tx {
            before.global_tps_current.wrapping_add(1)
        } else {
            before.global_tps_current
        }
        &&& after.supervisor == before.supervisor
    }

    /// What is counted when the request meets its limit: only the limit of an address leaves a count.
    pub open spec fn limited(self, before: Stats, after: Stats) -> bool {
        let key = net::ip_key(self.ip);
        &&& after.same_globals(before)
        &&& after.by_ip() == if self.limit_kind() == LimitKind::ByIp {
            before.by_ip().insert(
                key,
                stats::after_tally(stats::stats_or_zero(before.by_ip(), key), Tally::RateLimited),
            )
        } else {
            before.by_ip()
        }
    }

    /// The request of a client that may pass, or the refusal of one that may not.
    pub open spec fn is_opened(
        gate: Gate,
        ip: IpAddr,
        api_key: Option<String>,
        r: Result<HttpRequest, Reply>,
    ) -> bool {
        match r {
            Ok(req) => {
                &&& gate.lets_pass(ip, text::opt_view(api_key))
                &&& req.ip == ip
                &&& req.api_key == api_key
                &&& req.authed_by_key == gate.holds_key(text::opt_view(api_key))
            },
            Err(reply) => {
                &&& !gate.lets_pass(ip, text::opt_view(api_key))
                &&& is_error(reply, STATUS_FORBIDDEN, "Unauthorized"@)
            },
        }
    }

    /// The kind of a request whose body came and is not too long, or the refusal of another.
    pub open spec fn is_taken(body: Option<Seq<u8>>, r: Result<RpcMethod, Reply>) -> bool {
        match r {
            Ok(method) => {
                &&& body is Some
                &&& body->0.len() <= MAX_BODY_SIZE
                &&& method == kind_of(body->0)
            },
            Err(reply) => {
                &&& body is None || body->0.len() > MAX_BODY_SIZE
                &&& is_error(reply, STATUS_BAD_REQUEST, "Request body too large"@)
            },
        }
    }

    /// What became of the request once its limit had been asked.
    pub open spec fn took_limit(
        self,
        before: Stats,
        after: Stats,
        method: RpcMethod,
        outcome: Result<(), bool>,
        now_ms: u64,
        r: Result<(), Reply>,
    ) -> bool {
        match r {
            Ok(_) => {
                &&& outcome is Ok
                &&& self.let_through(before, after, sends(method), now_ms)
            },
            Err(reply) => {
                &&& outcome is Err
                &&& is_error(reply, STATUS_TOO_MANY_REQUESTS, limit_message(outcome->Err_0))
                &&& self.limited(before, after)
            },
        }
    }

    /// What became of the request with this body.
    pub open spec fn was_handled(
        self,
        before: Gate,
        after: Gate,
        body: Option<Seq<u8>>,
        now_ms: u64,
        r: Result<RpcMethod, Reply>,
    ) -> bool {
        if body is None || body->0.len() > MAX_BODY_SIZE {
            &&& r is Err
            &&& is_error(r->Err_0, STATUS_BAD_REQUEST, "Request body too large"@)
            &&& after == before
        } else {
            let kind = kind_of(body->0);
            match r {
                Ok(method) => {
                    &&& method == kind
                    &&& self.limit_asked(
                        before.rate_limiter,
                        after.rate_limiter,
                        sends(kind),
                        Ok::<(), bool>(()),
                    )
                    &&& self.let_through(before.stats, after.stats, sends(kind), now_ms)
                },
                Err(reply) => {
                    &&& self.limited(before.stats, after.stats)
                    &&& exists|is_tps: bool|
                        #![trigger limit_message(is_tps)]
                        {
                            &&& self.limit_asked(
                                before.rate_limiter,
                                after.rate_limiter,
                                sends(kind),
                                Err::<(), bool>(is_tps),
                            )
                            &&& is_error(reply, STATUS_TOO_MANY_REQUESTS, limit_message(is_tps))
                        }
                },
            }
        }
    }

    /// What became of the request once it had been forwarded.
    pub open spec fn is_finished(
        self,
        before: Stats,
        after: Stats,
        result: Result<Reply, String>,
        reply: Reply,
    ) -> bool {
        let key = net::ip_key(self.ip);
        let was = stats::stats_or_zero(before.by_ip(), key);
        &&& after.same_globals(before)
        &&& match result {
            Ok(answer) => {
                &&& reply == answer
                &&& after.by_ip() == before.by_ip().insert(
                    key,
                    stats::after_leave(was, Conn::Rpc),
                )
            },
            Err(e) => {
                &&& is_error(reply, STATUS_BAD_GATEWAY, e@)
                &&& after.by_ip() == before.by_ip().insert(
                    key,
                    stats::after_leave(stats::after_tally(was, Tally::Error), Conn::Rpc),
                )
            },
        }
    }

    /// Lets a request pass, or refuses it.
    pub fn open(gate: &Gate, ip: IpAddr, api_key: Option<String>) -> (r: Result<
        HttpRequest,
        Reply,
    >)
        requires
            gate.wf(),
        ensures
            Self::is_opened(*gate, ip, api_key, r),
    {
        let authed_by_key = match &api_key {
            Some(k) => gate.key_in_use(Some(k.as_str())),
            None => false,
        };
        if !gate.whitelist.is_allowed(&ip) && !authed_by_key {
            return Err(json_error_response(STATUS_FORBIDDEN, "Unauthorized"));
        }
        Ok(HttpRequest { ip, api_key, authed_by_key })
    }

    /// The kind of the request, where its body came and is not too long.
    pub fn on_body(body: Option<&Vec<u8>>) -> (r: Result<RpcMethod, Reply>)
        ensures
            Self::is_taken(bytes_in(body), r),
    {
        match body {
            Some(b) => {
                if b.len() > MAX_BODY_SIZE {
                    Err(json_error_response(STATUS_BAD_REQUEST, "Request body too large"))
                } else {
                    Ok(classify_rpc(b.as_slice()))
                }
            },
            None => Err(json_error_response(STATUS_BAD_REQUEST, "Request body too large")),
        }
    }

    /// Asks the limit that the request answers to; the answer depends on the time.
    pub fn ask_limit(&self, gate: &mut Gate, is_send_tx: bool) -> (r: Result<(), bool>)
        requires
            old(gate).wf(),
        ensures
            final(gate).wf(),
            final(gate).same_but_limiters(*old(gate)),
            self.limit_asked(old(gate).rate_limiter, final(gate).rate_limiter, is_send_tx, r),
    {
        match &self.api_key {
            Some(key) if self.authed_by_key => gate.rate_limiter.check_by_key(
                key.as_str(),
                is_send_tx,
            ),
            _ => gate.rate_limiter.check(&self.ip, is_send_tx),
        }
    }

    /// Takes what the limit said: the request is refused, or counted and let through.
    pub fn on_limit(
        &self,
        gate: &mut Gate,
        method: RpcMethod,
        outcome: Result<(), bool>,
        now_ms: u64,
    ) -> (r: Result<(), Reply>)
        requires
            old(gate).wf(),
        ensures
            final(gate).wf(),
            final(gate).same_but_stats(*old(gate)),
            self.took_limit(old(gate).stats, final(gate).stats, method, outcome, now_ms, r),
    {
        let ghost start = gate.stats.by_ip();
        let is_send_tx = matches!(
            method,
            RpcMethod::SendTransaction | RpcMethod::SendTransactionBatch
        );
        match outcome {
            Err(is_tps) => {
                if !(self.authed_by_key && self.api_key.is_some()) {
                    gate.stats.record_rate_limited(self.ip);
                }
                let msg = if is_tps {
                    "TPS rate limit exceeded"
                } else {
                    "RPS rate limit exceeded"
                };
                Err(json_error_response(STATUS_TOO_MANY_REQUESTS, msg))
            },
            Ok(_) => {
                gate.stats.record_rpc(self.ip, is_send_tx, now_ms);
                gate.stats.enter(self.ip, Conn::Rpc);
                proof {
                    let key = net::ip_key(self.ip);
                    let was = stats::stats_or_zero(start, key);
                    assert(gate.stats.by_ip() =~= start.insert(
                        key,
                        stats::after_enter(stats::after_rpc(was, is_send_tx, now_ms), Conn::Rpc),
                    ));
                }
                Ok(())
            },
        }
    }

    /// Takes the body of a request that has passed, and says where it goes, or how it is refused.
    /// Whether a limit is met depends on the time.
    pub fn handle_request(&self, gate: &mut Gate, body: Option<&Vec<u8>>, now_ms: u64) -> (
        r: Result<RpcMethod, Reply>)
        requires
            old(gate).wf(),
        ensures
            final(gate).wf(),
            final(gate).whitelist == old(gate).whitelist,
            final(gate).api_keys == old(gate).api_keys,
            self.was_handled(*old(gate), *final(gate), bytes_in(body), now_ms, r),
    {
        match HttpRequest::on_body(body) {
            Err(reply) => Err(reply),
            Ok(method) => {
                let is_send_tx = matches!(
                    method,
                    RpcMethod::SendTransaction | RpcMethod::SendTransactionBatch
                );
                let outcome = self.ask_limit(gate, is_send_tx);
                match self.on_limit(gate, method, outcome, now_ms) {
                    Err(reply) => Err(reply),
                    Ok(_) => Ok(method),
                }
            },
        }
    }

    /// Takes what came of forwarding the request: the answer is handed on, an error becomes one of
    /// the gateway, and the request no longer counts as running.
    pub fn finish(&self, gate: &mut Gate, result: Result<Reply, String>) -> (reply: Reply)
        requires
            old(gate).wf(),
        ensures
            final(gate).wf(),
            final(gate).same_but_stats(*old(gate)),
            self.is_finished(old(gate).stats, final(gate).stats, result, reply),
    {
        let ghost start = gate.stats.by_ip();
        let ghost key = net::ip_key(self.ip);
        match result {
            Ok(answer) => {
                gate.stats.leave(self.ip, Conn::Rpc);
                answer
            },
            Err(e) => {
                gate.stats.record_error(self.ip);
                gate.stats.leave(self.ip, Conn::Rpc);
                proof {
                    let was = stats::stats_or_zero(start, key);
                    assert(gate.stats.by_ip() =~= start.insert(
                        key,
                        stats::after_leave(stats::after_tally(was, Tally::Error), Conn::Rpc),
                    ));
                }
                json_error_response(STATUS_BAD_GATEWAY, e.as_str())
            },
        }
    }
}

/// The headers of every reply.
pub fn reply_headers() -> (r: [(&'static str, &'static str); 2])
    ensures
        r@[0].0@ == "content-type"@ && r@[0].1@ == "application/json"@,
        r@[1].0@ == "access-control-allow-origin"@ && r@[1].1@ == "*"@,
{
    [("content-type", "application/json"), ("access-control-allow-origin", "*")]
}

/// Where a request goes: to all nodes exactly where `sendTransaction` occurs in its body; round the nodes
/// exactly where one of the six heavy reads does and `sendTransaction` does not; by priority in every
/// other case. A batch is one that says so.
pub proof fn law_body_decides_where_it_goes(body: Seq<u8>)
    ensures
        ({
            let is_send = text::mentions(body, "sendTransaction"@);
            let is_heavy = {
                ||| text::mentions(body, "getProgramAccounts"@)
                ||| text::mentions(body, "getTokenAccountsByOwner"@)
                ||| text::mentions(body, "getTokenAccountsByDelegate"@)
                ||| text::mentions(body, "getTokenLargestAccounts"@)
                ||| text::mentions(body, "getLargestAccounts"@)
                ||| text::mentions(body, "getSupply"@)
            };
            let route = route_for(kind_of(body));
            &&& route == RpcRoute::FanOut <==> is_send
            &&& route == RpcRoute::RoundRobin <==> is_heavy && !is_send
            &&& route == RpcRoute::ByPriority <==> !is_heavy && !is_send
            &&& kind_of(body) == RpcMethod::SendTransactionBatch <==> text::mentions(
                body,
                "sendTransactionBatch"@,
            )
        }),
{
    law_sending_is_never_overlooked(body);
}

/// A client passes exactly where its address is on the whitelist or its key is in use; it is then known
/// whether it came by its key, and any other is forbidden.
pub proof fn law_stranger_is_forbidden(
    gate: Gate,
    ip: IpAddr,
    api_key: Option<String>,
    r: Result<HttpRequest, Reply>,
)
    requires
        HttpRequest::is_opened(gate, ip, api_key, r),
    ensures
        ({
            let by_key = api_key is Some && gate.api_keys@.contains_key(api_key->0@);
            &&& r is Ok <==> gate.whitelist@.contains(ip) || by_key
            &&& r is Ok ==> r->Ok_0.authed_by_key == by_key && r->Ok_0.ip == ip
                && r->Ok_0.api_key == api_key
            &&& r is Err ==> r->Err_0.status == 403
        }),
{
}

/// A body is refused exactly where it did not come or is longer than a mebibyte, and of one that is taken
/// it is known whether it sends a transaction.
pub proof fn law_long_body_is_refused(body: Option<Seq<u8>>, r: Result<RpcMethod, Reply>)
    requires
        HttpRequest::is_taken(body, r),
    ensures
        r is Err <==> body is None || body->0.len() > 1048576,
        r is Err ==> r->Err_0.status == 400,
        r is Ok ==> (sends(r->Ok_0) <==> text::mentions(body->0, "sendTransaction"@)),
{
    if r is Ok {
        law_sending_is_never_overlooked(body->0);
    }
}

/// A request is let through exactly where its limit says so. It then counts once, as a transaction
/// besides where it sends one, and as running; no limit or error is noted. One that is refused is
/// answered with the status for it, does not count as a request, and leaves a count only where it
/// answers to the limit of its address. No other client's counters change.
pub proof fn law_limit_decides(
    req: HttpRequest,
    before: Stats,
    after: Stats,
    method: RpcMethod,
    outcome: Result<(), bool>,
    now_ms: u64,
    r: Result<(), Reply>,
)
    requires
        req.took_limit(before, after, method, outcome, now_ms, r),
        ({
            let was = stats::stats_or_zero(before.by_ip(), net::ip_key(req.ip));
            &&& was.total_rpc_requests < u64::MAX
            &&& was.total_tx_sends < u64::MAX
            &&& was.active_rpc_conns < u64::MAX
            &&& was.rate_limited_count < u64::MAX
            &&& before.global_total_requests < u64::MAX
        }),
    ensures
        ({
            let was = stats::stats_or_zero(before.by_ip(), net::ip_key(req.ip));
            let is = stats::stats_or_zero(after.by_ip(), net::ip_key(req.ip));
            let is_send = method == RpcMethod::SendTransaction || method
                == RpcMethod::SendTransactionBatch;
            let by_key = req.authed_by_key && req.api_key is Some;
            &&& r is Ok <==> outcome is Ok
            &&& stats::others_unchanged(before.by_ip(), after.by_ip(), net::ip_key(req.ip))
            &&& is.error_count == was.error_count
            &&& r is Ok ==> {
                &&& is.total_rpc_requests == was.total_rpc_requests + 1
                &&& is.total_tx_sends == was.total_tx_sends + if is_send { 1int } else { 0 }
                &&& is.active_rpc_conns == was.active_rpc_conns + 1
                &&& is.rate_limited_count == was.rate_limited_count
                &&& is.last_seen_epoch_ms == now_ms
                &&& after.global_total_requests == before.global_total_requests + 1
            }
            &&& r is Err ==> {
                &&& r->Err_0.status == 429
                &&& is.total_rpc_requests == was.total_rpc_requests
                &&& is.active_rpc_conns == was.active_rpc_conns
                &&& is.rate_limited_count == was.rate_limited_count + if by_key { 0int } else { 1 }
                &&& after.global_total_requests == before.global_total_requests
            }
        }),
{
}

/// A request answers to the limit of its key where it came by one, and else to that of its address; the
/// limit on transactions is asked exactly where `sendTransaction` occurs in its body. One that is not
/// taken asks no limit and changes nothing.
pub proof fn law_request_answers_to_its_own_limit(
    req: HttpRequest,
    before: Gate,
    after: Gate,
    body: Option<Seq<u8>>,
    now_ms: u64,
    r: Result<RpcMethod, Reply>,
)
    requires
        req.was_handled(before, after, body, now_ms, r),
    ensures
        body is None || body->0.len() > 1048576 ==> r is Err && r->Err_0.status == 400 && after
            == before,
        body is Some && body->0.len() <= 1048576 ==> {
            let is_send = text::mentions(body->0, "sendTransaction"@);
            exists|verdict: Result<(), bool>|
                {
                    &&& verdict is Ok <==> r is Ok
                    &&& req.authed_by_key && req.api_key is Some
                        ==> #[trigger] after.rate_limiter.asked_by_key(
                        before.rate_limiter,
                        req.api_key->0@,
                        is_send,
                        verdict,
                    )
                    &&& !(req.authed_by_key && req.api_key is Some)
                        ==> #[trigger] after.rate_limiter.asked_by_ip(
                        before.rate_limiter,
                        req.ip,
                        is_send,
                        verdict,
                    )
                    &&& r is Err ==> is_error(
                        r->Err_0,
                        429,
                        if verdict->Err_0 {
                            "TPS rate limit exceeded"@
                        } else {
                            "RPS rate limit exceeded"@
                        },
                    )
                }
        },
        body is Some && body->0.len() <= 1048576 && r is Ok ==> r->Ok_0 == kind_of(body->0),
{
    if body is Some && body->0.len() <= 1048576 {
        law_sending_is_never_overlooked(body->0);
        let is_send = text::mentions(body->0, "sendTransaction"@);
        let verdict: Result<(), bool> = if r is Ok {
            Ok(())
        } else {
            let is_tps = choose|is_tps: bool|
                #![trigger limit_message(is_tps)]
                {
                    &&& req.limit_asked(
                        before.rate_limiter,
                        after.rate_limiter,
                        is_send,
                        Err::<(), bool>(is_tps),
                    )
                    &&& is_error(r->Err_0, STATUS_TOO_MANY_REQUESTS, limit_message(is_tps))
                };
            Err(is_tps)
        };
        assert(req.limit_asked(before.rate_limiter, after.rate_limiter, is_send, verdict));
        let by_key = after.rate_limiter.asked_by_key(
            before.rate_limiter,
            req.api_key->0@,
            is_send,
            verdict,
        );
        let by_ip = after.rate_limiter.asked_by_ip(
            before.rate_limiter,
            req.ip,
            is_send,
            verdict,
        );
    }
}

/// What a node answered is handed on as it came; a request that could not be forwarded is answered as a
/// failure of the gateway and counts as an error. Either way it no longer counts as running, and nothing
/// else is counted.
pub proof fn law_answer_comes_through(
    req: HttpRequest,
    before: Stats,
    after: Stats,
    result: Result<Reply, String>,
    reply: Reply,
)
    requires
        req.is_finished(before, after, result, reply),
        ({
            let was = stats::stats_or_zero(before.by_ip(), net::ip_key(req.ip));
            was.active_rpc_conns > 0 && was.error_count < u64::MAX
        }),
    ensures
        ({
            let was = stats::stats_or_zero(before.by_ip(), net::ip_key(req.ip));
            let is = stats::stats_or_zero(after.by_ip(), net::ip_key(req.ip));
            &&& result is Ok ==> reply == result->Ok_0
            &&& result is Err ==> is_error(reply, 502, result->Err_0@)
            &&& is.active_rpc_conns == was.active_rpc_conns - 1
            &&& is.error_count == was.error_count + if result is Err { 1int } else { 0 }
            &&& is.total_rpc_requests == was.total_rpc_requests
            &&& is.rate_limited_count == was.rate_limited_count
            &&& stats::others_unchanged(before.by_ip(), after.by_ip(), net::ip_key(req.ip))
            &&& after.global_total_requests == before.global_total_requests
            &&& after.global_rps_current == before.global_rps_current
            &&& after.global_tps_current == before.global_tps_current
        }),
{
}

/// An error says its status, in digits behind a minus sign, and its message, as it was quoted.
pub proof fn law_error_says_status_and_message(status: u16, quoted: Seq<char>)
    ensures
        ({
            let t = error_text(status, quoted);
            let d = text::decimal(status as nat);
            &&& t.len() == 18 + d.len() + 11 + quoted.len() + 28
            &&& t[17] == '-'
            &&& t.subrange(18, 18int + d.len()) == d
            &&& t.subrange(29int + d.len(), 29int + d.len() + quoted.len()) == quoted
        }),
{
    reveal_strlit("{\"error\":{\"code\":-");
    reveal_strlit(",\"message\":");
    reveal_strlit("},\"id\":null,\"jsonrpc\":\"2.0\"}");
    let t = error_text(status, quoted);
    let d = text::decimal(status as nat);
    assert(t.subrange(18, 18int + d.len()) =~= d);
    assert(t.subrange(29int + d.len(), 29int + d.len() + quoted.len()) =~= quoted);
}

/// A request that was let through and answered leaves the count of those that run as it was.
pub proof fn law_answered_request_is_not_running(was: stats::IpStats, is_send_tx: bool, now_ms: u64)
    ensures
        stats::after_leave(
            stats::after_enter(stats::after_rpc(was, is_send_tx, now_ms), Conn::Rpc),
            Conn::Rpc,
        ) == stats::after_rpc(was, is_send_tx, now_ms),
{
    stats::law_leave_undoes_enter(stats::after_rpc(was, is_send_tx, now_ms), Conn::Rpc);
}

} // verus!
