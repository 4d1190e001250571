use solana_rpc_cluster::cluster::grpc_pool::GrpcPool;
use solana_rpc_cluster::cluster::health::NodeHealth;
use solana_rpc_cluster::cluster::router::Router;
use solana_rpc_cluster::cluster::NodeEntry;
use solana_rpc_cluster::config::{GrpcConfig, NodeConfig};
use solana_rpc_cluster::names::NameMap;
use solana_rpc_cluster::proxy::backoff::Backoff;
use solana_rpc_cluster::proxy::forwarder::{
    Direction, Forwarder, ForwarderAction, ForwarderEvent, ForwarderState,
};
use solana_rpc_cluster::proxy::geyser::{
    AccountsFilter, SlotsFilter, SubscribeRequest, SubscribeUpdate, TransactionInfo, TransactionsFilter, TxBody,
    TxMessage, TxMeta, UpdateOneof,
};
use solana_rpc_cluster::proxy::grpc_filter::{
    collect_keys, matches_tx_filter, CompiledFilters, CompiledTxFilter,
};
use solana_rpc_cluster::proxy::grpc_mux::{
    build_mux_subscribe_request, channel_source, compute_dedup_key, inject_token, single_upstream,
    AfterSend, ChannelSource, DedupCache, DedupKey, GrpcMultiplexer, MuxMode, Relayed, StreamItem,
    StreamNext, Subscriber, TrySend, UpstreamStream,
};
use solana_rpc_cluster::proxy::status::GrpcCode;
use solana_rpc_cluster::proxy::tcp_listener::ListenerOptions;

fn node(id: &str, priority: u32) -> NodeEntry {
    NodeEntry {
        config: NodeConfig {
            id: id.to_string(),
            label: String::new(),
            region: String::new(),
            priority,
            rpc_url: String::new(),
            ws_url: String::new(),
            grpc_url: format!("http://{}:1", id),
            arpc_url: String::new(),
            grpc_x_token: String::new(),
            iris_url: None,
            rpc_pool_max_idle: 1,
            rpc_pool_idle_timeout_secs: 1,
        },
        health: NodeHealth::new(id.to_string()),
        client: 0,
    }
}

fn request() -> SubscribeRequest {
    SubscribeRequest {
        accounts: NameMap::new(),
        slots: NameMap::new(),
        transactions: NameMap::new(),
        transactions_status: Vec::new(),
        blocks: Vec::new(),
        blocks_meta: Vec::new(),
        entry: Vec::new(),
        commitment: None,
        ping: None,
    }
}

fn tx_filter() -> TransactionsFilter {
    TransactionsFilter {
        vote: None,
        failed: None,
        signature: None,
        account_include: Vec::new(),
        account_exclude: Vec::new(),
        account_required: Vec::new(),
    }
}

fn info() -> TransactionInfo {
    TransactionInfo {
        signature: vec![1, 2, 3],
        is_vote: false,
        transaction: Some(TxBody {
            message: Some(TxMessage { account_keys: vec![vec![7], vec![8]] }),
        }),
        meta: Some(TxMeta {
            failed: false,
            loaded_writable_addresses: vec![vec![9]],
            loaded_readonly_addresses: vec![vec![10]],
        }),
    }
}

fn update(u: UpdateOneof) -> SubscribeUpdate {
    SubscribeUpdate { filters: Vec::new(), update_oneof: Some(u) }
}

fn slot(slot: u64) -> SubscribeUpdate {
    update(UpdateOneof::Slot { slot, status: 0 })
}

fn compiled(f: TransactionsFilter) -> CompiledFilters {
    let mut r = request();
    r.transactions.insert("f".to_string(), f);
    CompiledFilters::from_request(&r)
}

fn passes(f: TransactionsFilter, i: TransactionInfo) -> bool {
    compiled(f).match_update(&update(UpdateOneof::Transaction(Some(i)))).is_some()
}

fn b58(bytes: &[u8]) -> String {
    bs58::encode(bytes).into_string()
}

#[test]
fn keys_are_decoded_from_base58() {
    let mut f = tx_filter();
    f.signature = Some(b58(&[1, 2, 3]));
    f.account_include = vec![b58(&[7]), "not base58: 0OIl".to_string(), b58(&[7])];
    let c = compiled(f);
    let t = c.transactions.get("f").unwrap();
    assert_eq!(t.signature, Some(vec![1, 2, 3]));
    assert_eq!(t.account_include.items, vec![vec![7u8]]);
    let s = collect_keys(vec![Some(vec![1]), None, Some(vec![1]), Some(vec![])]);
    assert_eq!(s.items, vec![vec![1u8], vec![]]);
}

#[test]
fn signature_that_does_not_decode_is_left_out() {
    let mut f = tx_filter();
    f.signature = Some("0".to_string());
    assert!(passes(f, info()));
}

#[test]
fn open_filter_lets_everything_pass() {
    assert!(passes(tx_filter(), info()));
    let mut i = info();
    i.transaction = None;
    i.meta = None;
    assert!(passes(tx_filter(), i));
}

#[test]
fn vote_failed_and_signature_filters() {
    let mut f = tx_filter();
    f.vote = Some(true);
    assert!(!passes(f, info()));
    let mut f = tx_filter();
    f.vote = Some(false);
    assert!(passes(f, info()));
    let mut f = tx_filter();
    f.failed = Some(true);
    assert!(!passes(f, info()));
    let mut f = tx_filter();
    f.failed = Some(true);
    let mut i = info();
    i.meta = Some(TxMeta {
        failed: true,
        loaded_writable_addresses: Vec::new(),
        loaded_readonly_addresses: Vec::new(),
    });
    assert!(passes(f, i));
    let mut f = tx_filter();
    f.failed = Some(false);
    let mut i = info();
    i.meta = None;
    assert!(passes(f, i));
    let mut f = tx_filter();
    f.signature = Some(b58(&[1, 2]));
    assert!(!passes(f, info()));
}

#[test]
fn account_filters_see_loaded_addresses() {
    for key in [7u8, 8, 9, 10] {
        let mut f = tx_filter();
        f.account_include = vec![b58(&[99]), b58(&[key])];
        assert!(passes(f, info()));
        let mut f = tx_filter();
        f.account_exclude = vec![b58(&[key])];
        assert!(!passes(f, info()));
    }
    let mut f = tx_filter();
    f.account_include = vec![b58(&[99])];
    assert!(!passes(f, info()));
    let mut f = tx_filter();
    f.account_required = vec![b58(&[7]), b58(&[10])];
    assert!(passes(f, info()));
    let mut f = tx_filter();
    f.account_required = vec![b58(&[7]), b58(&[11])];
    assert!(!passes(f, info()));
}

#[test]
fn updates_carry_the_names_of_matching_filters() {
    let mut r = request();
    r.transactions.insert("all".to_string(), tx_filter());
    let mut votes = tx_filter();
    votes.vote = Some(true);
    r.transactions.insert("votes".to_string(), votes);
    r.slots.insert(
        "s".to_string(),
        SlotsFilter { filter_by_commitment: Some(true), interslot_updates: None },
    );
    r.blocks_meta = vec!["m".to_string()];
    r.entry = vec!["e1".to_string(), "e2".to_string()];
    let c = CompiledFilters::from_request(&r);
    let names = |u| c.match_update(&update(u));
    assert_eq!(names(UpdateOneof::Transaction(Some(info()))), Some(vec!["all".to_string()]));
    assert_eq!(names(UpdateOneof::Transaction(None)), None);
    assert_eq!(names(UpdateOneof::Slot { slot: 1, status: 2 }), Some(vec!["s".to_string()]));
    assert_eq!(names(UpdateOneof::BlockMeta { slot: 1 }), Some(vec!["m".to_string()]));
    assert_eq!(
        names(UpdateOneof::Entry { slot: 1, index: 0 }),
        Some(vec!["e1".to_string(), "e2".to_string()])
    );
    assert_eq!(names(UpdateOneof::Ping), Some(Vec::new()));
    assert_eq!(names(UpdateOneof::Pong { id: 1 }), Some(Vec::new()));
    assert_eq!(names(UpdateOneof::Account), None);
    assert_eq!(names(UpdateOneof::Block), None);
    assert_eq!(names(UpdateOneof::TransactionStatus { signature: Vec::new() }), None);
    let none = SubscribeUpdate { filters: Vec::new(), update_oneof: None };
    assert_eq!(c.match_update(&none), None);
    let nothing = CompiledFilters::from_request(&request());
    assert_eq!(nothing.match_update(&slot(1)), None);
    assert!(!nothing.has_mux_subscriptions());
}

#[test]
fn some_types_need_a_connection_of_their_own() {
    let mut r = request();
    r.entry = vec!["e".to_string()];
    let c = CompiledFilters::from_request(&r);
    assert!(!c.needs_direct_connection());
    assert!(c.has_mux_subscriptions());
    r.accounts.insert("a".to_string(), AccountsFilter { account: Vec::new() });
    assert!(CompiledFilters::from_request(&r).needs_direct_connection());
    let mut r = request();
    r.blocks = vec!["b".to_string()];
    assert!(CompiledFilters::from_request(&r).needs_direct_connection());
    let mut r = request();
    r.transactions_status = vec!["t".to_string()];
    assert!(CompiledFilters::from_request(&r).needs_direct_connection());
}

#[test]
fn key_is_new_once_until_it_is_forgotten() {
    let mut d = DedupCache::new(100);
    assert!(d.check_and_insert(DedupKey::Slot(5, 0), 0));
    assert!(!d.check_and_insert(DedupKey::Slot(5, 0), 10));
    assert!(d.check_and_insert(DedupKey::Slot(5, 1), 20));
    assert!(d.check_and_insert(DedupKey::BlockMeta(5), 20));
    assert!(d.check_and_insert(DedupKey::Entry(5, 0), 20));
    assert!(d.check_and_insert(DedupKey::Transaction(vec![5]), 20));
    assert!(d.check_and_insert(DedupKey::TransactionStatus(vec![5]), 20));
    d.evict_expired(99);
    assert!(!d.check_and_insert(DedupKey::Slot(5, 0), 99));
    d.evict_expired(100);
    assert_eq!(d.fifo.len(), 5);
    assert!(d.check_and_insert(DedupKey::Slot(5, 0), 100));
    assert!(!d.check_and_insert(DedupKey::Slot(5, 1), 100));
    d.evict_expired(1000);
    assert_eq!(d.fifo.len(), 0);
}

#[test]
fn repeats_do_not_make_a_key_last_longer() {
    let mut d = DedupCache::new(100);
    assert!(d.check_and_insert(DedupKey::BlockMeta(1), 0));
    assert!(d.check_and_insert(DedupKey::BlockMeta(2), 50));
    assert!(!d.check_and_insert(DedupKey::BlockMeta(1), 99));
    d.evict_expired(101);
    assert!(d.check_and_insert(DedupKey::BlockMeta(1), 101));
    assert!(!d.check_and_insert(DedupKey::BlockMeta(2), 101));
}

#[test]
fn filter_is_held_against_the_accounts_that_are_given() {
    let set = |keys: &[u8]| collect_keys(keys.iter().map(|k| Some(vec![*k])).collect());
    let filter = CompiledTxFilter {
        vote: None,
        failed: None,
        signature: None,
        account_include: set(&[1]),
        account_exclude: set(&[]),
        account_required: set(&[1, 2]),
    };
    let (a, b, c) = (vec![1u8], vec![2u8], vec![3u8]);
    assert!(!matches_tx_filter(&filter, &info(), &vec![&a, &c]));
    assert!(matches_tx_filter(&filter, &info(), &vec![&a, &b]));
    assert!(matches_tx_filter(&filter, &info(), &vec![&b, &c, &a, &b]));
    assert!(!matches_tx_filter(&filter, &info(), &Vec::new()));
}

#[test]
fn what_makes_updates_the_same() {
    assert!(matches!(
        compute_dedup_key(&update(UpdateOneof::Transaction(Some(info())))),
        Some(DedupKey::Transaction(s)) if s == vec![1, 2, 3]
    ));
    assert!(compute_dedup_key(&update(UpdateOneof::Transaction(None))).is_none());
    assert!(matches!(compute_dedup_key(&slot(4)), Some(DedupKey::Slot(4, 0))));
    assert!(matches!(
        compute_dedup_key(&update(UpdateOneof::Entry { slot: 1, index: 2 })),
        Some(DedupKey::Entry(1, 2))
    ));
    assert!(compute_dedup_key(&update(UpdateOneof::Ping)).is_none());
    assert!(compute_dedup_key(&update(UpdateOneof::Account)).is_none());
}

#[test]
fn regions_race_and_the_first_wins() {
    let mut nodes = vec![node("a", 1), node("b", 2)];
    let ids = vec!["a".to_string(), "b".to_string()];
    let router = Router::new(vec![node("a", 1), node("b", 2)], Vec::new(), ids);
    let mut m = GrpcMultiplexer::new(&router, &GrpcConfig::default());
    match &m.mode {
        MuxMode::MultiRegion { nodes, evict_every_secs } => {
            assert_eq!(nodes, &vec![0, 1]);
            assert_eq!(*evict_every_secs, 5);
        }
        MuxMode::Single => panic!("expected several regions"),
    }
    assert_eq!(m.dedup.ttl, 30_000_000_000);
    assert!(m.on_region_message(&mut nodes, "a", &slot(7), 1000, 1));
    assert!(!m.on_region_message(&mut nodes, "b", &slot(7), 1001, 2));
    assert!(m.on_region_message(&mut nodes, "b", &slot(8), 1002, 3));
    assert!(m.on_region_message(&mut nodes, "b", &update(UpdateOneof::Ping), 1003, 4));
    assert!(m.on_region_message(&mut nodes, "b", &update(UpdateOneof::Ping), 1004, 5));
    assert!(m.on_region_message(&mut nodes, "nobody", &slot(9), 1005, 6));
    assert_eq!((nodes[0].health.wins, nodes[0].health.dupes), (1, 0));
    assert_eq!((nodes[1].health.wins, nodes[1].health.dupes), (3, 1));
    assert_eq!((nodes[0].health.last_msg_ms, nodes[1].health.last_msg_ms), (1000, 1004));
    assert_eq!((m.messages_received, m.upstream_slot), (6, 9));
}

#[test]
fn single_mode_forwards_everything() {
    let config = GrpcConfig {
        multi_region_enabled: false,
        dedup_eviction_interval_secs: 0,
        ..GrpcConfig::default()
    };
    let router = Router::new(vec![node("a", 1)], Vec::new(), vec!["a".to_string()]);
    let mut m = GrpcMultiplexer::new(&router, &config);
    assert!(matches!(m.mode, MuxMode::Single));
    m.on_single_message(&slot(3));
    m.on_single_message(&slot(3));
    m.on_single_message(&update(UpdateOneof::Ping));
    assert_eq!((m.messages_received, m.upstream_slot), (3, 3));
    let pool = GrpcPool::new(&vec![node("a", 1).config], &vec!["a".to_string()]);
    let (n, source) = single_upstream(&router, &pool).unwrap();
    assert_eq!((n.config.id.as_str(), source), ("a", ChannelSource::Pool));
    assert_eq!(channel_source(&pool, "b"), ChannelSource::Fresh);
    let empty = Router::new(Vec::new(), Vec::new(), Vec::new());
    assert_eq!(single_upstream(&empty, &pool).err().unwrap(), "No healthy gRPC nodes");
}

#[test]
fn client_gets_the_message_as_it_came_under_its_own_names() {
    let router = Router::new(Vec::new(), Vec::new(), Vec::new());
    let m = GrpcMultiplexer::new(&router, &GrpcConfig::default());
    let mut r = request();
    r.entry = vec!["mine".to_string(), "other".to_string()];
    let s = m.subscribe_filtered(CompiledFilters::from_request(&r));
    let mut parts = update(UpdateOneof::Entry { slot: 1, index: 1 });
    parts.filters = vec!["upstream".to_string()];
    let d = s.hand_out(&Relayed { parts, body: vec![1, 2, 3] }).unwrap();
    assert_eq!(d.filters, vec!["mine", "other"]);
    assert_eq!(d.body, vec![1, 2, 3]);
    assert!(s.hand_out(&Relayed { parts: slot(1), body: vec![1] }).is_none());
}

#[test]
fn slow_client_is_disconnected_after_repeated_lag() {
    let router = Router::new(Vec::new(), Vec::new(), Vec::new());
    let m = GrpcMultiplexer::new(&router, &GrpcConfig::default());
    let mut r = request();
    r.entry = vec!["e".to_string()];
    let mut s = m.subscribe_filtered(CompiledFilters::from_request(&r));
    assert_eq!(
        s.on_update(&update(UpdateOneof::Entry { slot: 1, index: 1 })),
        Some(vec!["e".to_string()])
    );
    assert!(s.on_update(&slot(1)).is_none());
    assert!(s.on_lag().is_none());
    assert!(s.on_lag().is_none());
    let status = s.on_lag().unwrap();
    assert_eq!(status.code, GrpcCode::DataLoss);
    assert_eq!(status.message, "Stream too slow: disconnected due to repeated message lag");
    assert_eq!(Subscriber::after_try_send(TrySend::Sent), AfterSend::Next);
    assert_eq!(Subscriber::after_try_send(TrySend::Full), AfterSend::WaitForRoom);
    assert_eq!(Subscriber::after_try_send(TrySend::Closed), AfterSend::Stop);
}

#[test]
fn upstream_stream_pings_and_ends() {
    let mut u = UpstreamStream::new();
    assert_eq!(u.next_ping().ping, Some(1));
    assert_eq!(u.next_ping().ping, Some(2));
    u.ping_id = i32::MAX;
    assert_eq!(u.next_ping().ping, Some(i32::MIN));
    assert_eq!(UpstreamStream::on_item(StreamItem::Message), StreamNext::Deliver);
    assert_eq!(UpstreamStream::on_item(StreamItem::Failed), StreamNext::InvalidateAndFail);
    assert_eq!(UpstreamStream::on_item(StreamItem::Ended), StreamNext::EndCleanly);
    assert_eq!(UpstreamStream::on_delivered(true), StreamNext::Read);
    assert_eq!(UpstreamStream::on_delivered(false), StreamNext::EndCleanly);
}

#[test]
fn shared_subscription_asks_for_everything() {
    let r = build_mux_subscribe_request();
    assert_eq!(r.transactions.entries[0].0, "mux_tx");
    assert_eq!(r.slots.entries[0].0, "mux_slot");
    assert_eq!(r.slots.entries[0].1.interslot_updates, Some(false));
    assert_eq!(r.blocks_meta, vec!["mux_blocks_meta"]);
    assert_eq!(r.entry, vec!["mux_entry"]);
    assert_eq!(r.commitment, Some(0));
    let c = CompiledFilters::from_request(&r);
    assert!(!c.needs_direct_connection());
    assert_eq!(
        c.match_update(&update(UpdateOneof::Transaction(Some(info())))),
        Some(vec!["mux_tx".to_string()])
    );
}

#[test]
fn token_is_sent_where_it_can_be() {
    assert!(inject_token("secret-token"));
    assert!(inject_token("with\ttab and blank"));
    assert!(inject_token("schl\u{fc}ssel"));
    assert!(!inject_token(""));
    assert!(!inject_token("line\nbreak"));
    assert!(!inject_token("del\u{7f}"));
}

#[test]
fn waits_double_up_to_the_longest() {
    let mut b = Backoff::new();
    let mut waits = Vec::new();
    for _ in 0..7 {
        waits.push(b.pause_with(false, 0));
    }
    assert_eq!(waits, vec![1000, 2000, 4000, 8000, 16000, 30000, 30000]);
    assert_eq!(b.max_jitter(false), 15000);
    assert_eq!(b.max_jitter(true), 500);
    assert_eq!(b.pause_with(true, 500), 1500);
    assert_eq!(b.wait_ms, 2000);
}

#[test]
fn random_part_of_a_wait_is_at_most_half() {
    let mut seen = Vec::new();
    for _ in 0..50 {
        let mut b = Backoff { wait_ms: 30000 };
        let w = b.pause(false);
        assert!((30000..=45000).contains(&w));
        seen.push(w);
    }
    assert!(seen.iter().any(|w| *w != seen[0]));
}

#[test]
fn cancelled_forwarder_stops_whatever_it_waits_for() {
    for direction in [Direction::ToUpstream, Direction::ToClient { shared_channel: true }] {
        let mut f = Forwarder::new(direction);
        assert_eq!(f.on_event(ForwarderEvent::Cancelled), ForwarderAction::Stop);
        assert_eq!(f.state, ForwarderState::Stopped);
        let mut f = Forwarder::new(direction);
        f.on_event(ForwarderEvent::Message);
        assert_eq!(f.on_event(ForwarderEvent::Cancelled), ForwarderAction::Stop);
        assert_eq!(f.state, ForwarderState::Stopped);
    }
}

#[test]
fn forwarder_holds_one_message_at_a_time() {
    let mut f = Forwarder::new(Direction::ToClient { shared_channel: true });
    assert_eq!(f.on_event(ForwarderEvent::Message), ForwarderAction::WaitForRoom);
    assert_eq!(f.on_event(ForwarderEvent::Room), ForwarderAction::SendAndRead);
    assert_eq!(
        f.on_event(ForwarderEvent::InputFailed),
        ForwarderAction::PassErrorAndStop { invalidate: true }
    );
    assert_eq!(f.state, ForwarderState::Stopped);
    let mut f = Forwarder::new(Direction::ToClient { shared_channel: false });
    assert_eq!(
        f.on_event(ForwarderEvent::InputFailed),
        ForwarderAction::PassErrorAndStop { invalidate: false }
    );
    let mut f = Forwarder::new(Direction::ToUpstream);
    assert_eq!(f.on_event(ForwarderEvent::InputFailed), ForwarderAction::Stop);
    let mut f = Forwarder::new(Direction::ToUpstream);
    f.on_event(ForwarderEvent::Message);
    assert_eq!(f.on_event(ForwarderEvent::Cancelled), ForwarderAction::Stop);
    let mut f = Forwarder::new(Direction::ToUpstream);
    assert_eq!(f.on_event(ForwarderEvent::InputEnded), ForwarderAction::Stop);
    let mut f = Forwarder::new(Direction::ToUpstream);
    f.on_event(ForwarderEvent::Message);
    assert_eq!(f.on_event(ForwarderEvent::NoRoom), ForwarderAction::Stop);
}

#[test]
fn zero_switches_listener_options_off() {
    let o = ListenerOptions::new(0, 30);
    assert_eq!((o.keepalive_secs, o.user_timeout_secs), (None, Some(30)));
}
