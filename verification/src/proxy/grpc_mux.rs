//! One upstream subscription per region, shared by all clients: which messages are new, and which
//! client gets them.

use crate::cluster::grpc_pool::GrpcPool;
use crate::cluster::health::NodeHealth;
use crate::cluster::router;
use crate::cluster::router::Router;
use crate::cluster::NodeEntry;
use crate::codec;
use crate::config::GrpcConfig;
use crate::names::NameMap;
use crate::proxy::geyser::{
    SlotsFilter, SubscribeRequest, SubscribeUpdate, TransactionsFilter, UpdateOneof,
};
use crate::proxy::grpc_filter;
use crate::proxy::grpc_filter::CompiledFilters;
use crate::proxy::status::{GrpcCode, GrpcStatus};
use crate::text;
use std::collections::VecDeque;
use vstd::prelude::*;

verus! {

/// How many messages of all regions may wait to be looked at.
pub const RAW_CHANNEL_CAPACITY: usize = 32768;

/// Seconds between pings to an upstream.
pub const PING_INTERVAL_SECS: u64 = 10;

/// The `processed` commitment level.
pub const COMMITMENT_PROCESSED: i32 = 0;

/// What makes two messages the same.
#[derive(Debug)]
pub enum DedupKey {
    Transaction(Vec<u8>),
    TransactionStatus(Vec<u8>),
    Slot(u64, i32),
    BlockMeta(u64),
    Entry(u64, u64),
}

/// A key in plain values: its kind, a signature, two numbers and a status.
pub type SeenKey = (u8, Vec<u8>, u64, u64, i32);

/// A key in plain values.
pub type SeenView = (u8, Seq<u8>, u64, u64, i32);

/// A key by its values.
pub open spec fn seen_view(k: SeenKey) -> SeenView {
    (k.0, k.1@, k.2, k.3, k.4)
}

impl View for DedupKey {
    type V = SeenView;

    open spec fn view(&self) -> SeenView {
        match *self {
            DedupKey::Transaction(sig) => (0u8, sig@, 0u64, 0u64, 0i32),
            DedupKey::TransactionStatus(sig) => (1u8, sig@, 0u64, 0u64, 0i32),
            DedupKey::Slot(slot, status) => (2u8, Seq::empty(), slot, 0u64, status),
            DedupKey::BlockMeta(slot) => (3u8, Seq::empty(), slot, 0u64, 0i32),
            DedupKey::Entry(slot, index) => (4u8, Seq::empty(), slot, index, 0i32),
        }
    }
}

impl DedupKey {
    /// The key in plain values.
    fn plain(&self) -> (k: SeenKey)
        ensures
            seen_view(k) == self@,
    {
        match self {
            DedupKey::Transaction(sig) => (0, grpc_filter::copy_bytes(sig), 0, 0, 0),
            DedupKey::TransactionStatus(sig) => (1, grpc_filter::copy_bytes(sig), 0, 0, 0),
            DedupKey::Slot(slot, status) => {
                let none: Vec<u8> = Vec::new();
                assert(none@ =~= Seq::<u8>::empty());
                (2, none, *slot, 0, *status)
            },
            DedupKey::BlockMeta(slot) => {
                let none: Vec<u8> = Vec::new();
                assert(none@ =~= Seq::<u8>::empty());
                (3, none, *slot, 0, 0)
            },
            DedupKey::Entry(slot, index) => {
                let none: Vec<u8> = Vec::new();
                assert(none@ =~= Seq::<u8>::empty());
                (4, none, *slot, *index, 0)
            },
        }
    }
}

/// The keys that a map holds.
pub uninterp spec fn seen_in(m: dashmap::DashMap<SeenKey, ()>) -> Set<SeenView>;

/// `DashMap::with_capacity`: an empty map.
#[verifier::external_body]
fn new_seen() -> (m: dashmap::DashMap<SeenKey, ()>)
    ensures
        seen_in(m) == Set::<SeenView>::empty(),
{
    dashmap::DashMap::with_capacity(65536)
}

/// `DashMap::insert`: the key is in the map; the result says whether it was not before.
#[verifier::external_body]
fn put_seen(m: &mut dashmap::DashMap<SeenKey, ()>, key: SeenKey) -> (is_new: bool)
    ensures
        seen_in(*final(m)) == seen_in(*old(m)).insert(seen_view(key)),
        is_new == !seen_in(*old(m)).contains(seen_view(key)),
{
    m.insert(key, ()).is_none()
}

/// `DashMap::remove`: the key is no longer in the map.
#[verifier::external_body]
fn drop_seen(m: &mut dashmap::DashMap<SeenKey, ()>, key: &SeenKey)
    ensures
        seen_in(*final(m)) == seen_in(*old(m)).remove(seen_view(*key)),
{
    m.remove(key);
}

/// The messages of the last while: those that come again are not new. Times are nanoseconds on one
/// clock that does not run backwards.
pub struct DedupCache {
    pub seen: dashmap::DashMap<SeenKey, ()>,
    /// The keys in the order in which they came, with the time of each.
    pub fifo: VecDeque<(DedupKey, u128)>,
    /// How long a key is remembered.
    pub ttl: u128,
}

/// The keys of a queue.
pub open spec fn queued(queue: Seq<(SeenView, u128)>) -> Seq<SeenView> {
    queue.map_values(|e: (SeenView, u128)| e.0)
}

/// A message is new: it has no key, or its key is not in the queue.
pub open spec fn is_new_to(queue: Seq<(SeenView, u128)>, key: Option<SeenView>) -> bool {
    match key {
        Some(k) => !queued(queue).contains(k),
        None => true,
    }
}

/// The queue after a message.
pub open spec fn queue_after(
    queue: Seq<(SeenView, u128)>,
    key: Option<SeenView>,
    now: u128,
) -> Seq<(SeenView, u128)> {
    match key {
        Some(k) => if queued(queue).contains(k) {
            queue
        } else {
            queue.push((k, now))
        },
        None => queue,
    }
}

/// An entry of this time is no longer remembered.
pub open spec fn expired(when: u128, ttl: u128, now: u128) -> bool {
    if now >= when {
        now - when >= ttl
    } else {
        ttl == 0
    }
}

/// How many entries at the front of the queue are no longer remembered, up to the first that is.
pub open spec fn expired_count(queue: Seq<(SeenView, u128)>, ttl: u128, now: u128) -> nat
    decreases queue.len(),
{
    if queue.len() > 0 && expired(queue[0].1, ttl, now) {
        1 + expired_count(queue.drop_first(), ttl, now)
    } else {
        0
    }
}

/// The times of a queue do not run backwards.
pub open spec fn times_ascend(queue: Seq<(SeenView, u128)>) -> bool {
    forall|a: int, b: int|
        0 <= a < b < queue.len() ==> (#[trigger] queue[a]).1 <= (#[trigger] queue[b]).1
}

/// No time of a queue is later than `now`.
pub open spec fn none_later(queue: Seq<(SeenView, u128)>, now: u128) -> bool {
    forall|a: int| 0 <= a < queue.len() ==> (#[trigger] queue[a]).1 <= now
}

/// The queue after an eviction.
pub open spec fn queue_evicted(
    queue: Seq<(SeenView, u128)>,
    ttl: u128,
    now: u128,
) -> Seq<(SeenView, u128)> {
    queue.skip(expired_count(queue, ttl, now) as int)
}

/// What makes an update the same as another; nothing for those that are always new.
pub open spec fn dedup_key(update: SubscribeUpdate) -> Option<SeenView> {
    match update.update_oneof {
        Some(UpdateOneof::Transaction(Some(info))) => Some(
            (0u8, info.signature@, 0u64, 0u64, 0i32),
        ),
        Some(UpdateOneof::TransactionStatus { signature }) => Some(
            (1u8, signature@, 0u64, 0u64, 0i32),
        ),
        Some(UpdateOneof::Slot { slot, status }) => Some((2u8, Seq::empty(), slot, 0u64, status)),
        Some(UpdateOneof::BlockMeta { slot }) => Some((3u8, Seq::empty(), slot, 0u64, 0i32)),
        Some(UpdateOneof::Entry { slot, index }) => Some((4u8, Seq::empty(), slot, index, 0i32)),
        _ => None,
    }
}

/// The slot that an update tells of.
pub open spec fn slot_told(update: SubscribeUpdate) -> Option<u64> {
    match update.update_oneof {
        Some(UpdateOneof::Slot { slot, .. }) => Some(slot),
        _ => None,
    }
}

/// The latest slot after an update.
pub open spec fn slot_after(slot: u64, update: SubscribeUpdate) -> u64 {
    match slot_told(update) {
        Some(s) => s,
        None => slot,
    }
}

/// Two updates have the same key exactly where they are the same message: two transactions, or two
/// transaction statuses, with the same signature, two slot updates with the same slot and the same
/// status, two of block metadata with the same slot, or two entries with the same slot and the same
/// index. Messages of different kinds are never the same.
pub proof fn law_same_key_is_the_same_message(a: SubscribeUpdate, b: SubscribeUpdate)
    requires
        dedup_key(a) is Some,
        dedup_key(b) is Some,
    ensures
        dedup_key(a) == dedup_key(b) <==> match (a.update_oneof, b.update_oneof) {
            (
                Some(UpdateOneof::Transaction(Some(x))),
                Some(UpdateOneof::Transaction(Some(y))),
            ) => x.signature@ == y.signature@,
            (
                Some(UpdateOneof::TransactionStatus { signature: x }),
                Some(UpdateOneof::TransactionStatus { signature: y }),
            ) => x@ == y@,
            (
                Some(UpdateOneof::Slot { slot: x, status: s }),
                Some(UpdateOneof::Slot { slot: y, status: t }),
            ) => x == y && s == t,
            (
                Some(UpdateOneof::BlockMeta { slot: x }),
                Some(UpdateOneof::BlockMeta { slot: y }),
            ) => x == y,
            (
                Some(UpdateOneof::Entry { slot: x, index: m }),
                Some(UpdateOneof::Entry { slot: y, index: n }),
            ) => x == y && m == n,
            _ => false,
        },
{
}

/// Transactions, their statuses, slots, block metadata and entries can come twice; accounts, blocks,
/// pings and pongs are always new.
pub proof fn law_what_can_come_twice(update: SubscribeUpdate)
    ensures
        dedup_key(update) is Some <==> match update.update_oneof {
            Some(UpdateOneof::Transaction(info)) => info is Some,
            Some(UpdateOneof::TransactionStatus { .. }) => true,
            Some(UpdateOneof::Slot { .. }) => true,
            Some(UpdateOneof::BlockMeta { .. }) => true,
            Some(UpdateOneof::Entry { .. }) => true,
            Some(UpdateOneof::Account) => false,
            Some(UpdateOneof::Block) => false,
            Some(UpdateOneof::Ping) => false,
            Some(UpdateOneof::Pong { .. }) => false,
            None => false,
        },
{
}

/// A key in plain values tells as much as the key itself.
pub proof fn law_plain_key_is_the_key(a: DedupKey, b: DedupKey)
    ensures
        a@ == b@ <==> match (a, b) {
            (DedupKey::Transaction(x), DedupKey::Transaction(y)) => x@ == y@,
            (DedupKey::TransactionStatus(x), DedupKey::TransactionStatus(y)) => x@ == y@,
            (DedupKey::Slot(x, s), DedupKey::Slot(y, t)) => x == y && s == t,
            (DedupKey::BlockMeta(x), DedupKey::BlockMeta(y)) => x == y,
            (DedupKey::Entry(x, m), DedupKey::Entry(y, n)) => x == y && m == n,
            _ => false,
        },
{
}

/// A message is new exactly where it has no key or none like it is remembered. One that is new is
/// remembered from now on, with its time, behind the others; one that is not changes nothing.
pub proof fn law_message_is_remembered_once(
    queue: Seq<(SeenView, u128)>,
    key: Option<SeenView>,
    now: u128,
)
    ensures
        key is None ==> is_new_to(queue, key) && queue_after(queue, key, now) == queue,
        key is Some ==> (is_new_to(queue, key) <==> forall|i: int|
            0 <= i < queue.len() ==> (#[trigger] queue[i]).0 != key->0),
        key is Some && is_new_to(queue, key) ==> queue_after(queue, key, now) == queue.push(
            (key->0, now),
        ),
        key is Some && !is_new_to(queue, key) ==> queue_after(queue, key, now) == queue,
{
    if key is Some {
        let keys = queued(queue);
        if keys.contains(key->0) {
            let i = keys.index_of(key->0);
            assert(queue[i].0 == key->0);
        }
        assert forall|i: int| 0 <= i < queue.len() && (#[trigger] queue[i]).0 == key->0 implies keys.contains(
            key->0,
        ) by {
            assert(keys[i] == key->0);
        }
    }
}

/// The region that delivers a message first wins: the same message is not new after it. What is another
/// message is as new as it was.
pub proof fn law_first_delivery_wins(
    queue: Seq<(SeenView, u128)>,
    first: SubscribeUpdate,
    second: SubscribeUpdate,
    now: u128,
)
    ensures
        ({
            let after = queue_after(queue, dedup_key(first), now);
            &&& dedup_key(second) is Some && dedup_key(second) == dedup_key(first) ==> !is_new_to(
                after,
                dedup_key(second),
            )
            &&& dedup_key(second) != dedup_key(first) ==> (is_new_to(after, dedup_key(second))
                <==> is_new_to(queue, dedup_key(second)))
            &&& dedup_key(second) is None ==> is_new_to(after, dedup_key(second))
        }),
{
    let after = queue_after(queue, dedup_key(first), now);
    law_message_is_remembered_once(queue, dedup_key(first), now);
    law_message_is_remembered_once(queue, dedup_key(second), now);
    law_message_is_remembered_once(after, dedup_key(second), now);
    if dedup_key(first) is Some && is_new_to(queue, dedup_key(first)) {
        assert(after[queue.len() as int] == (dedup_key(first)->0, now));
        assert forall|i: int| 0 <= i < queue.len() implies #[trigger] queue[i] == after[i] by {}
    }
}

/// A key is remembered for the time that is set, no less and no more: it has expired exactly where as
/// much time has passed.
pub proof fn law_expiry_takes_the_time_that_is_set(since: u128, ttl: u128, now: u128)
    requires
        since <= now,
    ensures
        expired(since, ttl, now) <==> since + ttl <= now,
{
}

/// The latest slot is that of the last slot update; no other update touches it.
pub proof fn law_slot_is_that_of_the_last_slot_update(slot: u64, update: SubscribeUpdate)
    ensures
        match update.update_oneof {
            Some(UpdateOneof::Slot { slot: told, .. }) => slot_after(slot, update) == told,
            _ => slot_after(slot, update) == slot,
        },
{
}

/// What makes an update the same as another.
pub fn compute_dedup_key(update: &SubscribeUpdate) -> (r: Option<DedupKey>)
    ensures
        match r {
            Some(k) => dedup_key(*update) == Some(k@),
            None => dedup_key(*update) is None,
        },
{
    match &update.update_oneof {
        Some(UpdateOneof::Transaction(info)) => match info {
            Some(info) => Some(DedupKey::Transaction(grpc_filter::copy_bytes(&info.signature))),
            None => None,
        },
        Some(UpdateOneof::TransactionStatus { signature }) => Some(
            DedupKey::TransactionStatus(grpc_filter::copy_bytes(signature)),
        ),
        Some(UpdateOneof::Slot { slot, status }) => Some(DedupKey::Slot(*slot, *status)),
        Some(UpdateOneof::BlockMeta { slot }) => Some(DedupKey::BlockMeta(*slot)),
        Some(UpdateOneof::Entry { slot, index }) => Some(DedupKey::Entry(*slot, *index)),
        // Ping/Pong/Account/Block: pass through unchecked
        _ => None,
    }
}

impl DedupCache {
    /// The keys that are remembered.
    pub open spec fn keys(self) -> Set<SeenView> {
        seen_in(self.seen)
    }

    /// The keys in the order in which they came, with the time of each.
    pub open spec fn queue(self) -> Seq<(SeenView, u128)> {
        self.fifo@.map_values(|e: (DedupKey, u128)| (e.0@, e.1))
    }

    /// The keys that are remembered are those of the queue, and none is queued twice.
    pub open spec fn wf(self) -> bool {
        &&& queued(self.queue()).no_duplicates()
        &&& self.keys() == queued(self.queue()).to_set()
    }

    /// The clock has not run backwards up to `now`: the times of the queue ascend, and none is later.
    pub open spec fn ascends_to(self, now: u128) -> bool {
        times_ascend(self.queue()) && none_later(self.queue(), now)
    }

    /// Nothing has come yet.
    pub fn new(ttl: u128) -> (c: DedupCache)
        ensures
            c.wf(),
            forall|now: u128| #[trigger] c.ascends_to(now),
            c.ttl == ttl,
            c.queue().len() == 0,
    {
        let c = DedupCache { seen: new_seen(), fifo: VecDeque::with_capacity(65536), ttl };
        assert(queued(c.queue()).to_set() =~= Set::<SeenView>::empty());
        c
    }

    /// Returns true if this is the first time we've seen this key.
    pub fn check_and_insert(&mut self, key: DedupKey, now: u128) -> (is_new: bool)
        requires
            old(self).wf(),
        ensures
            final(self).wf(),
            final(self).ttl == old(self).ttl,
            is_new == is_new_to(old(self).queue(), Some(key@)),
            final(self).queue() == queue_after(old(self).queue(), Some(key@), now),
            old(self).ascends_to(now) ==> final(self).ascends_to(now),
    {
        let ghost queue = self.queue();
        let ghost before = queued(queue);
        let ghost k = key@;
        proof {
            assert(before.to_set().contains(k) == before.contains(k));
        }
        let is_new = put_seen(&mut self.seen, key.plain());
        if is_new {
            self.fifo.push_back((key, now));
            proof {
                assert(self.queue() =~= queue.push((k, now)));
                assert(queued(self.queue()) =~= before.push(k));
                before.lemma_push_to_set_commute(k);
            }
        } else {
            assert(self.keys() =~= old(self).keys());
        }
        is_new
    }

    /// Evict entries older than ttl.
    pub fn evict_expired(&mut self, now: u128)
        requires
            old(self).wf(),
        ensures
            final(self).wf(),
            final(self).ttl == old(self).ttl,
            final(self).queue() == queue_evicted(old(self).queue(), old(self).ttl, now),
            old(self).ascends_to(now) ==> final(self).ascends_to(now),
    {
        proof {
            lemma_expired_count_in_range(self.queue(), self.ttl, now);
        }
        let ghost start = self.queue();
        let ghost mut gone: nat = 0;
        let ttl: u128 = self.ttl;
        assert(start.skip(0) =~= start);
        while self.fifo.len() > 0 && now.saturating_sub(self.fifo[0].1) >= ttl
            invariant
                self.wf(),
                self.ttl == ttl,
                gone <= start.len(),
                self.queue() == start.skip(gone as int),
                expired_count(start, ttl, now) == gone + expired_count(self.queue(), ttl, now),
            decreases self.fifo@.len(),
        {
            let ghost before = self.queue();
            let ghost keys = queued(before);
            assert(before[0] == (self.fifo@[0].0@, self.fifo@[0].1));
            if let Some((k, _)) = self.fifo.pop_front() {
                let p = k.plain();
                drop_seen(&mut self.seen, &p);
                proof {
                    assert(self.queue() =~= before.drop_first());
                    assert(self.queue() =~= start.skip(gone as int + 1));
                    let rest = queued(self.queue());
                    assert(rest =~= keys.drop_first());
                    assert(keys[0] == k@);
                    assert forall|x: SeenView| rest.contains(x) == (keys.contains(x) && x != k@) by {
                        if rest.contains(x) {
                            let i = rest.index_of(x);
                            assert(keys[i + 1] == x);
                        }
                        if keys.contains(x) && x != k@ {
                            let i = keys.index_of(x);
                            assert(rest[i - 1] == x);
                        }
                    }
                    assert(rest.to_set() =~= keys.to_set().remove(k@));
                    assert(rest.no_duplicates()) by {
                        assert forall|i: int, j: int|
                            0 <= i < rest.len() && 0 <= j < rest.len() && i != j implies rest[i]
                            != rest[j] by {
                            assert(rest[i] == keys[i + 1] && rest[j] == keys[j + 1]);
                        }
                    }
                    gone = gone + 1;
                }
            }
        }
        proof {
            if self.fifo@.len() > 0 {
                assert(self.queue()[0] == (self.fifo@[0].0@, self.fifo@[0].1));
            }
            assert(expired_count(self.queue(), ttl, now) == 0);
        }
    }
}

/// No key is forgotten before its time: an entry that has not expired survives eviction.
pub proof fn law_remembered_for_its_time(
    queue: Seq<(SeenView, u128)>,
    ttl: u128,
    now: u128,
    entry: (SeenView, u128),
)
    requires
        queue.contains(entry),
        !expired(entry.1, ttl, now),
    ensures
        queue_evicted(queue, ttl, now).contains(entry),
{
    let i = queue.index_of(entry);
    lemma_expired_count_at_most(queue, ttl, now, i);
    let n = expired_count(queue, ttl, now) as int;
    assert(queue.skip(n)[i - n] == entry);
}

proof fn lemma_expired_count_at_most(
    queue: Seq<(SeenView, u128)>,
    ttl: u128,
    now: u128,
    i: int,
)
    requires
        0 <= i < queue.len(),
        !expired(queue[i].1, ttl, now),
    ensures
        expired_count(queue, ttl, now) <= i,
    decreases queue.len(),
{
    if i > 0 && expired(queue[0].1, ttl, now) {
        lemma_expired_count_at_most(queue.drop_first(), ttl, now, i - 1);
    }
}

proof fn lemma_expired_count_in_range(queue: Seq<(SeenView, u128)>, ttl: u128, now: u128)
    ensures
        expired_count(queue, ttl, now) <= queue.len(),
    decreases queue.len(),
{
    if queue.len() > 0 {
        lemma_expired_count_in_range(queue.drop_first(), ttl, now);
    }
}

/// Where the times of the queue do not run backwards, eviction leaves nothing that has expired.
proof fn lemma_eviction_leaves_nothing_expired(
    queue: Seq<(SeenView, u128)>,
    ttl: u128,
    now: u128,
    entry: (SeenView, u128),
)
    requires
        times_ascend(queue),
        queue_evicted(queue, ttl, now).contains(entry),
    ensures
        !expired(entry.1, ttl, now),
{
    lemma_expired_count_in_range(queue, ttl, now);
    let n = expired_count(queue, ttl, now) as int;
    let i = queue.skip(n).index_of(entry);
    assert(queue[n + i] == entry);
    lemma_past_the_count(queue, ttl, now, n + i);
}

proof fn lemma_past_the_count(queue: Seq<(SeenView, u128)>, ttl: u128, now: u128, i: int)
    requires
        times_ascend(queue),
        expired_count(queue, ttl, now) <= i < queue.len(),
    ensures
        !expired(queue[i].1, ttl, now),
    decreases queue.len(),
{
    if expired(queue[0].1, ttl, now) {
        let rest = queue.drop_first();
        assert forall|a: int, b: int| 0 <= a < b < rest.len() implies (#[trigger] rest[a]).1 <= (
        #[trigger] rest[b]).1 by {
            assert(rest[a] == queue[a + 1] && rest[b] == queue[b + 1]);
        }
        lemma_past_the_count(rest, ttl, now, i - 1);
    } else if i > 0 {
        assert(queue[0].1 <= queue[i].1);
    }
}

/// What happens to the deduplication.
pub enum DedupEvent {
    /// A message of some region comes, with its key where it has one.
    Message { key: Option<SeenView>, at: u128 },
    /// What has expired is forgotten.
    Evict { at: u128 },
}

/// The queue after events.
pub open spec fn queue_at(events: Seq<DedupEvent>, ttl: u128) -> Seq<(SeenView, u128)>
    decreases events.len(),
{
    if events.len() == 0 {
        Seq::empty()
    } else {
        let before = queue_at(events.drop_last(), ttl);
        match events.last() {
            DedupEvent::Message { key, at } => queue_after(before, key, at),
            DedupEvent::Evict { at } => queue_evicted(before, ttl, at),
        }
    }
}

/// When an event happens.
pub open spec fn time_of(event: DedupEvent) -> u128 {
    match event {
        DedupEvent::Message { at, .. } => at,
        DedupEvent::Evict { at } => at,
    }
}

/// The events happen on a clock that does not run backwards.
pub open spec fn on_one_clock(events: Seq<DedupEvent>) -> bool {
    forall|a: int, b: int|
        0 <= a < b < events.len() ==> time_of(#[trigger] events[a]) <= time_of(#[trigger] events[b])
}

/// On a clock that does not run backwards, the times of the queue ascend, and none is later than the
/// last event.
proof fn lemma_queue_ascends(events: Seq<DedupEvent>, ttl: u128)
    requires
        on_one_clock(events),
    ensures
        times_ascend(queue_at(events, ttl)),
        events.len() > 0 ==> none_later(queue_at(events, ttl), time_of(events.last())),
        events.len() == 0 ==> queue_at(events, ttl).len() == 0,
    decreases events.len(),
{
    if events.len() > 0 {
        let rest = events.drop_last();
        let before = queue_at(rest, ttl);
        let after = queue_at(events, ttl);
        let now = time_of(events.last());
        assert forall|a: int, b: int| 0 <= a < b < rest.len() implies time_of(#[trigger] rest[a])
            <= time_of(#[trigger] rest[b]) by {
            assert(rest[a] == events[a] && rest[b] == events[b]);
        }
        lemma_queue_ascends(rest, ttl);
        if rest.len() > 0 {
            assert(rest.last() == events[events.len() - 2]);
            assert(time_of(events[events.len() - 2]) <= time_of(events[events.len() - 1]));
        }
        lemma_expired_count_in_range(before, ttl, now);
    }
}

/// An eviction leaves nothing that has expired, whatever has come before it on a clock that does not
/// run backwards: what is in the queue afterwards has not expired.
pub proof fn law_eviction_forgets_all_expired(
    events: Seq<DedupEvent>,
    ttl: u128,
    entry: (SeenView, u128),
)
    requires
        on_one_clock(events),
        events.len() > 0,
        events.last() is Evict,
        queue_at(events, ttl).contains(entry),
    ensures
        !expired(entry.1, ttl, events.last()->Evict_at),
{
    let rest = events.drop_last();
    assert forall|a: int, b: int| 0 <= a < b < rest.len() implies time_of(#[trigger] rest[a])
        <= time_of(#[trigger] rest[b]) by {
        assert(rest[a] == events[a] && rest[b] == events[b]);
    }
    lemma_queue_ascends(rest, ttl);
    lemma_eviction_leaves_nothing_expired(
        queue_at(rest, ttl),
        ttl,
        events.last()->Evict_at,
        entry,
    );
}

/// The event is a message with this key.
pub open spec fn brings(event: DedupEvent, k: SeenView) -> bool {
    event is Message && event->key == Some(k)
}

/// The event at a position is a message that goes out to the clients.
pub open spec fn goes_out(events: Seq<DedupEvent>, ttl: u128, i: int) -> bool {
    events[i] is Message && is_new_to(queue_at(events.take(i), ttl), events[i]->key)
}

/// A message that went out is remembered as long as no eviction comes that is late enough.
proof fn lemma_stays_queued(events: Seq<DedupEvent>, ttl: u128, i: int, n: int, k: SeenView)
    requires
        0 <= i < n <= events.len(),
        goes_out(events, ttl, i),
        brings(events[i], k),
        forall|e: int|
            i < e < n && #[trigger] events[e] is Evict ==> !expired(
                events[i]->Message_at,
                ttl,
                events[e]->Evict_at,
            ),
    ensures
        queue_at(events.take(n), ttl).contains((k, events[i]->Message_at)),
    decreases n,
{
    let entry = (k, events[i]->Message_at);
    let before = queue_at(events.take(n - 1), ttl);
    let after = queue_at(events.take(n), ttl);
    assert(events.take(n).drop_last() =~= events.take(n - 1));
    assert(events.take(n).last() == events[n - 1]);
    if n == i + 1 {
        assert(after[before.len() as int] == entry);
    } else {
        lemma_stays_queued(events, ttl, i, n - 1, k);
        match events[n - 1] {
            DedupEvent::Message { key, at } => {
                let p = before.index_of(entry);
                assert(after[p] == entry);
            },
            DedupEvent::Evict { at } => {
                law_remembered_for_its_time(before, ttl, at, entry);
            },
        }
    }
}

/// Of messages that are the same, whichever regions they come from, no second one goes out within
/// the time that is remembered: where two went out, an eviction came in between for which the first
/// had expired.
pub proof fn law_no_duplicate_goes_out(
    events: Seq<DedupEvent>,
    ttl: u128,
    i: int,
    j: int,
    k: SeenView,
)
    requires
        0 <= i < j < events.len(),
        goes_out(events, ttl, i),
        goes_out(events, ttl, j),
        brings(events[i], k),
        brings(events[j], k),
    ensures
        exists|e: int|
            i < e < j && #[trigger] events[e] is Evict && expired(
                events[i]->Message_at,
                ttl,
                events[e]->Evict_at,
            ),
{
    if !(exists|e: int|
        i < e < j && #[trigger] events[e] is Evict && expired(
            events[i]->Message_at,
            ttl,
            events[e]->Evict_at,
        )) {
        let entry = (k, events[i]->Message_at);
        let queue = queue_at(events.take(j), ttl);
        lemma_stays_queued(events, ttl, i, j, k);
        assert(queued(queue)[queue.index_of(entry)] == k);
        assert(false);
    }
}

/// What is remembered came with a message that went out, at the time that is noted.
proof fn lemma_queued_entry_went_out(
    events: Seq<DedupEvent>,
    ttl: u128,
    n: int,
    entry: (SeenView, u128),
)
    requires
        0 <= n <= events.len(),
        queue_at(events.take(n), ttl).contains(entry),
    ensures
        exists|i: int|
            0 <= i < n && #[trigger] goes_out(events, ttl, i) && brings(events[i], entry.0)
                && events[i]->Message_at == entry.1,
    decreases n,
{
    let after = queue_at(events.take(n), ttl);
    if n > 0 {
        let before = queue_at(events.take(n - 1), ttl);
        assert(events.take(n).drop_last() =~= events.take(n - 1));
        assert(events.take(n).last() == events[n - 1]);
        let p = after.index_of(entry);
        if before.contains(entry) {
            lemma_queued_entry_went_out(events, ttl, n - 1, entry);
            let i = choose|i: int|
                0 <= i < n - 1 && #[trigger] goes_out(events, ttl, i) && brings(
                    events[i],
                    entry.0,
                ) && events[i]->Message_at == entry.1;
            assert(goes_out(events, ttl, i));
        } else {
            match events[n - 1] {
                DedupEvent::Message { key, at } => {
                    if p < before.len() {
                        assert(before[p] == entry);
                    }
                    assert(goes_out(events, ttl, n - 1));
                },
                DedupEvent::Evict { at } => {
                    lemma_expired_count_in_range(before, ttl, at);
                    let gone = expired_count(before, ttl, at) as int;
                    assert(before[gone + p] == entry);
                },
            }
        }
    } else {
        assert(events.take(0) =~= Seq::<DedupEvent>::empty());
    }
}

/// A key is forgotten by the first eviction for which its time is over, and by none before, on a
/// clock that does not run backwards: right after an eviction a message with a key that went out is
/// new exactly where the time since it last went out is over. Messages that were held back meanwhile
/// do not count.
pub proof fn law_forgotten_exactly_when_expired(
    events: Seq<DedupEvent>,
    ttl: u128,
    i: int,
    k: SeenView,
)
    requires
        on_one_clock(events),
        0 <= i < events.len() - 1,
        events.last() is Evict,
        goes_out(events, ttl, i),
        brings(events[i], k),
        forall|j: int|
            i < j < events.len() && #[trigger] goes_out(events, ttl, j) ==> !brings(events[j], k),
    ensures
        is_new_to(queue_at(events, ttl), Some(k)) == expired(
            events[i]->Message_at,
            ttl,
            events.last()->Evict_at,
        ),
{
    let n = events.len() as int;
    let now = events.last()->Evict_at;
    let since = events[i]->Message_at;
    let queue = queue_at(events, ttl);
    assert(events.take(n) =~= events);
    assert(time_of(events[i]) <= time_of(events[n - 1]));
    if expired(since, ttl, now) {
        if queued(queue).contains(k) {
            let p = queued(queue).index_of(k);
            let entry = queue[p];
            assert(entry.0 == k);
            assert(queue.contains(entry));
            lemma_queued_entry_went_out(events, ttl, n, entry);
            let j = choose|j: int|
                0 <= j < n && #[trigger] goes_out(events, ttl, j) && brings(events[j], entry.0)
                    && events[j]->Message_at == entry.1;
            law_eviction_forgets_all_expired(events, ttl, entry);
            if j < i {
                assert(time_of(events[j]) <= time_of(events[i]));
            }
            assert(false);
        }
    } else {
        assert forall|e: int| i < e < n && #[trigger] events[e] is Evict implies !expired(
            since,
            ttl,
            events[e]->Evict_at,
        ) by {
            assert(time_of(events[i]) <= time_of(events[e]));
            if e < n - 1 {
                assert(time_of(events[e]) <= time_of(events[n - 1]));
            }
        }
        lemma_stays_queued(events, ttl, i, n, k);
        assert(queued(queue)[queue.index_of((k, since))] == k);
    }
}

/// Nothing is lost to deduplication: where a message does not go out, the same one went out before.
pub proof fn law_held_back_message_went_out_before(
    events: Seq<DedupEvent>,
    ttl: u128,
    j: int,
    k: SeenView,
)
    requires
        0 <= j < events.len(),
        brings(events[j], k),
        !goes_out(events, ttl, j),
    ensures
        exists|i: int|
            0 <= i < j && #[trigger] goes_out(events, ttl, i) && brings(events[i], k),
{
    let queue = queue_at(events.take(j), ttl);
    let p = queued(queue).index_of(k);
    assert(queue[p].0 == k);
    lemma_queued_entry_went_out(events, ttl, j, queue[p]);
}

/// Where messages come from.
#[derive(Debug)]
pub enum MuxMode {
    /// A stream from each of these nodes; what comes again is dropped, and forgotten at intervals.
    MultiRegion { nodes: Vec<usize>, evict_every_secs: u64 },
    /// A stream from the node that is best when it is opened.
    Single,
}

/// The shared subscription.
pub struct GrpcMultiplexer {
    pub mode: MuxMode,
    pub dedup: DedupCache,
    /// Latest slot seen from upstream (for monitoring)
    pub upstream_slot: u64,
    /// Total messages received from upstream (counts every region's deliveries)
    pub messages_received: u64,
    pub broadcast_capacity: usize,
    pub client_channel_capacity: usize,
    pub max_lag_events: u64,
}

/// The last node with an id.
pub open spec fn last_with_id(nodes: Seq<NodeEntry>, id: Seq<char>) -> Option<int>
    decreases nodes.len(),
{
    if nodes.len() == 0 {
        None
    } else if nodes.last().config.id@ == id {
        Some(nodes.len() - 1)
    } else {
        last_with_id(nodes.drop_last(), id)
    }
}

/// The health of a node after a message of its region.
pub open spec fn health_after_message(h: NodeHealth, is_new: bool, now_ms: u64) -> NodeHealth {
    NodeHealth {
        last_msg_ms: now_ms,
        wins: if is_new {
            h.wins.wrapping_add(1)
        } else {
            h.wins
        },
        dupes: if is_new {
            h.dupes
        } else {
            h.dupes.wrapping_add(1)
        },
        ..h
    }
}

/// The nodes after a message of a region.
pub open spec fn nodes_after_message(
    nodes: Seq<NodeEntry>,
    id: Seq<char>,
    is_new: bool,
    now_ms: u64,
) -> Seq<NodeEntry> {
    match last_with_id(nodes, id) {
        Some(i) => nodes.update(
            i,
            NodeEntry {
                health: health_after_message(nodes[i].health, is_new, now_ms),
                ..nodes[i]
            },
        ),
        None => nodes,
    }
}

fn find_node(nodes: &Vec<NodeEntry>, id: &str) -> (r: Option<usize>)
    ensures
        match r {
            Some(i) => i < nodes@.len() && last_with_id(nodes@, id@) == Some(i as int),
            None => last_with_id(nodes@, id@) is None,
        },
{
    let mut i: usize = nodes.len();
    assert(nodes@.take(i as int) =~= nodes@);
    while i > 0
        invariant
            i <= nodes@.len(),
            last_with_id(nodes@, id@) == last_with_id(nodes@.take(i as int), id@),
        decreases i,
    {
        assert(nodes@.take(i as int).drop_last() =~= nodes@.take(i - 1));
        if text::str_eq(nodes[i - 1].config.id.as_str(), id) {
            return Some(i - 1);
        }
        i = i - 1;
    }
    None
}

impl GrpcMultiplexer {
    /// The deduplication is in order.
    pub open spec fn wf(self) -> bool {
        self.dedup.wf()
    }

    /// Only what a message may change has changed.
    pub open spec fn same_setup(self, other: GrpcMultiplexer) -> bool {
        &&& self.mode == other.mode
        &&& self.dedup.ttl == other.dedup.ttl
        &&& self.broadcast_capacity == other.broadcast_capacity
        &&& self.client_channel_capacity == other.client_channel_capacity
        &&& self.max_lag_events == other.max_lag_events
    }

    /// A message of the only upstream has come.
    pub open spec fn took_single_message(
        self,
        before: GrpcMultiplexer,
        update: SubscribeUpdate,
    ) -> bool {
        &&& self.same_setup(before)
        &&& self.dedup == before.dedup
        &&& self.messages_received == before.messages_received.wrapping_add(1)
        &&& self.upstream_slot == slot_after(before.upstream_slot, update)
    }

    /// A client with these filters has begun its subscription.
    pub open spec fn has_begun(self, filters: CompiledFilters, s: Subscriber) -> bool {
        &&& s.filters == filters
        &&& s.lag_count == 0
        &&& s.max_lag_events == self.max_lag_events
    }

    /// The streams are those that the configuration calls for, and nothing has come yet.
    pub open spec fn is_laid_out(self, router: Router, config: GrpcConfig) -> bool {
        &&& self.upstream_slot == 0
        &&& self.messages_received == 0
        &&& self.dedup.queue().len() == 0
        &&& self.dedup.ttl == config.dedup_window_secs * 1000000000
        &&& self.broadcast_capacity == config.broadcast_capacity
        &&& self.client_channel_capacity == config.client_channel_capacity
        &&& self.max_lag_events == config.max_lag_events
        &&& match self.mode {
            MuxMode::MultiRegion { nodes, evict_every_secs } => {
                &&& config.multi_region_enabled
                &&& router::ints(nodes@) == router::positions(
                    router.nodes@,
                    router::listed(router.grpc_node_ids@),
                )
                &&& evict_every_secs == if config.dedup_eviction_interval_secs > 1 {
                    config.dedup_eviction_interval_secs
                } else {
                    1
                }
            },
            MuxMode::Single => !config.multi_region_enabled,
        }
    }

    /// What a message of a region does, and whether it goes out.
    pub open spec fn took_region_message(
        self,
        before: GrpcMultiplexer,
        update: SubscribeUpdate,
        now: u128,
        is_new: bool,
    ) -> bool {
        &&& self.same_setup(before)
        &&& self.messages_received == before.messages_received.wrapping_add(1)
        &&& self.upstream_slot == slot_after(before.upstream_slot, update)
        &&& is_new == is_new_to(before.dedup.queue(), dedup_key(update))
        &&& self.dedup.queue() == queue_after(before.dedup.queue(), dedup_key(update), now)
    }

    /// Lays out the streams that the configuration calls for.
    pub fn new(router: &Router, config: &GrpcConfig) -> (m: GrpcMultiplexer)
        ensures
            m.wf(),
            m.is_laid_out(*router, *config),
    {
        let mode = if config.multi_region_enabled {
            MuxMode::MultiRegion {
                nodes: router.get_grpc_eligible_nodes(),
                evict_every_secs: if config.dedup_eviction_interval_secs > 1 {
                    config.dedup_eviction_interval_secs
                } else {
                    1
                },
            }
        } else {
            MuxMode::Single
        };
        let ttl: u128 = config.dedup_window_secs as u128 * 1000000000u128;
        GrpcMultiplexer {
            mode,
            dedup: DedupCache::new(ttl),
            upstream_slot: 0,
            messages_received: 0,
            broadcast_capacity: config.broadcast_capacity,
            client_channel_capacity: config.client_channel_capacity,
            max_lag_events: config.max_lag_events,
        }
    }

    fn note_message(&mut self, update: &SubscribeUpdate)
        requires
            old(self).wf(),
        ensures
            final(self).wf(),
            final(self).same_setup(*old(self)),
            final(self).dedup == old(self).dedup,
            final(self).messages_received == old(self).messages_received.wrapping_add(1),
            final(self).upstream_slot == slot_after(old(self).upstream_slot, *update),
    {
        self.messages_received = self.messages_received.wrapping_add(1);
        if let Some(UpdateOneof::Slot { slot, .. }) = &update.update_oneof {
            self.upstream_slot = *slot;
        }
    }

    /// Takes a message of a region, and says whether it goes out to the clients: only where no
    /// region has delivered it before, within the time that is remembered.
    pub fn on_region_message(
        &mut self,
        nodes: &mut Vec<NodeEntry>,
        node_id: &str,
        update: &SubscribeUpdate,
        now_ms: u64,
        now: u128,
    ) -> (is_new: bool)
        requires
            old(self).wf(),
        ensures
            final(self).wf(),
            final(self).took_region_message(*old(self), *update, now, is_new),
            final(nodes)@ == nodes_after_message(old(nodes)@, node_id@, is_new, now_ms),
    {
        self.note_message(update);
        let is_new = match compute_dedup_key(update) {
            Some(k) => self.dedup.check_and_insert(k, now),
            None => true,
        };
        if let Some(i) = find_node(nodes, node_id) {
            nodes[i].health.record_message(now_ms);
            if is_new {
                nodes[i].health.record_win();
            } else {
                nodes[i].health.record_dupe();
            }
            assert(nodes@ =~= nodes_after_message(old(nodes)@, node_id@, is_new, now_ms));
        }
        is_new
    }

    /// Takes a message of the only upstream; it always goes out to the clients.
    pub fn on_single_message(&mut self, update: &SubscribeUpdate)
        requires
            old(self).wf(),
        ensures
            final(self).wf(),
            final(self).took_single_message(*old(self), *update),
    {
        self.note_message(update);
    }

    /// Begins the subscription of a client.
    pub fn subscribe_filtered(&self, filters: CompiledFilters) -> (s: Subscriber)
        ensures
            s.live(),
            self.has_begun(filters, s),
    {
        Subscriber { filters, lag_count: 0, max_lag_events: self.max_lag_events }
    }
}

/// A message of the only upstream counts once and is not held against what came before, so that it always
/// goes out; a client begins with its own filters, without lag, and with the patience that is configured.
pub proof fn law_only_upstream_is_not_compared(
    before: GrpcMultiplexer,
    after: GrpcMultiplexer,
    update: SubscribeUpdate,
    filters: CompiledFilters,
    s: Subscriber,
)
    requires
        after.took_single_message(before, update),
        after.has_begun(filters, s),
        before.messages_received < u64::MAX,
    ensures
        after.messages_received == before.messages_received + 1,
        after.dedup == before.dedup,
        update.update_oneof matches Some(UpdateOneof::Slot { slot, .. }) ==> after.upstream_slot
            == slot,
        !(update.update_oneof matches Some(UpdateOneof::Slot { .. })) ==> after.upstream_slot
            == before.upstream_slot,
        after.max_lag_events == before.max_lag_events,
        s.filters == filters,
        s.lag_count == 0,
        s.max_lag_events == before.max_lag_events,
{
}

/// Where several regions are in use, there is a stream from every node that serves gRPC, in order, and
/// from no other, whatever their health, and what is remembered is forgotten at the configured interval,
/// but no more often than once in a second. A message is remembered for the configured number of
/// seconds, and clients have the configured room and patience.
pub proof fn law_streams_are_those_configured(
    m: GrpcMultiplexer,
    router: Router,
    config: GrpcConfig,
    i: int,
)
    requires
        m.is_laid_out(router, config),
        0 <= i < router.nodes@.len(),
    ensures
        m.mode is MultiRegion <==> config.multi_region_enabled,
        m.mode is MultiRegion ==> {
            let every = m.mode->evict_every_secs;
            let nodes = m.mode->nodes@;
            &&& router::ints(nodes).contains(i) <==> text::views(router.grpc_node_ids@).contains(
                router.nodes@[i].config.id@,
            )
            &&& router::ints(nodes).no_duplicates()
            &&& config.dedup_eviction_interval_secs >= 1 ==> every
                == config.dedup_eviction_interval_secs
            &&& config.dedup_eviction_interval_secs == 0 ==> every == 1
        },
        m.dedup.ttl == config.dedup_window_secs * 1000 * 1000 * 1000,
        m.dedup.queue().len() == 0,
        m.broadcast_capacity == config.broadcast_capacity,
        m.client_channel_capacity == config.client_channel_capacity,
        m.max_lag_events == config.max_lag_events,
{
    let ok = router::listed(router.grpc_node_ids@);
    router::lemma_positions(router.nodes@, ok);
    if m.mode is MultiRegion {
        let found = router::ints(m.mode->nodes@);
        assert(ok(router.nodes@[i]) == text::views(router.grpc_node_ids@).contains(
            router.nodes@[i].config.id@,
        ));
        if found.contains(i) {
            let k = found.index_of(i);
            assert(ok(router.nodes@[found[k]]));
        }
    }
}

/// Of two messages of regions in a row, the second goes out exactly where it is another message than the
/// first and went unseen before it, or is of a kind that is always new. Both are counted.
pub proof fn law_second_region_does_not_repeat(
    m: GrpcMultiplexer,
    between: GrpcMultiplexer,
    after: GrpcMultiplexer,
    first: SubscribeUpdate,
    second: SubscribeUpdate,
    t: u128,
    u: u128,
    first_out: bool,
    second_out: bool,
)
    requires
        between.took_region_message(m, first, t, first_out),
        after.took_region_message(between, second, u, second_out),
        m.messages_received < u64::MAX - 1,
    ensures
        dedup_key(second) is Some && dedup_key(second) == dedup_key(first) ==> !second_out,
        dedup_key(second) is None ==> second_out,
        dedup_key(second) is Some && dedup_key(second) != dedup_key(first) ==> (second_out
            <==> forall|i: int|
            0 <= i < m.dedup.queue().len() ==> (#[trigger] m.dedup.queue()[i]).0 != dedup_key(
                second,
            )->0),
        after.messages_received == m.messages_received + 2,
        after.mode == m.mode,
        after.dedup.ttl == m.dedup.ttl,
{
    law_first_delivery_wins(m.dedup.queue(), first, second, t);
    law_message_is_remembered_once(m.dedup.queue(), dedup_key(second), t);
}

/// A message counts for its region alone, at its time: as a win where it is the first of its kind, and as
/// a dupe where it is not. Of nodes with one id it is the last that it counts for.
pub proof fn law_message_counts_for_its_region(
    nodes: Seq<NodeEntry>,
    id: Seq<char>,
    is_new: bool,
    now_ms: u64,
    i: int,
)
    requires
        0 <= i < nodes.len(),
        nodes[i].health.wins < u64::MAX,
        nodes[i].health.dupes < u64::MAX,
    ensures
        ({
            let after = nodes_after_message(nodes, id, is_new, now_ms);
            let own = nodes[i].config.id@ == id && forall|j: int|
                i < j < nodes.len() ==> (#[trigger] nodes[j]).config.id@ != id;
            &&& after.len() == nodes.len()
            &&& !own ==> after[i] == nodes[i]
            &&& own ==> {
                let h = after[i].health;
                &&& after[i].config == nodes[i].config
                &&& h.last_msg_ms == now_ms
                &&& is_new ==> h.wins == nodes[i].health.wins + 1 && h.dupes == nodes[i].health.dupes
                &&& !is_new ==> h.wins == nodes[i].health.wins && h.dupes == nodes[i].health.dupes
                    + 1
                &&& h == (NodeHealth {
                    last_msg_ms: h.last_msg_ms,
                    wins: h.wins,
                    dupes: h.dupes,
                    ..nodes[i].health
                })
            }
        }),
{
    lemma_last_with_id(nodes, id);
}

/// The last node with an id has it, and none behind it does; there is none only where no node has it.
proof fn lemma_last_with_id(nodes: Seq<NodeEntry>, id: Seq<char>)
    ensures
        match last_with_id(nodes, id) {
            Some(k) => {
                &&& 0 <= k < nodes.len()
                &&& nodes[k].config.id@ == id
                &&& forall|j: int| k < j < nodes.len() ==> (#[trigger] nodes[j]).config.id@ != id
            },
            None => forall|j: int| 0 <= j < nodes.len() ==> (#[trigger] nodes[j]).config.id@ != id,
        },
    decreases nodes.len(),
{
    if nodes.len() > 0 && nodes.last().config.id@ != id {
        let rest = nodes.drop_last();
        lemma_last_with_id(rest, id);
        assert forall|j: int| 0 <= j < rest.len() implies #[trigger] nodes[j] == rest[j] by {}
    }
}

/// Each message of a region that is known counts exactly once for it: as a win or as a dupe.
pub proof fn law_win_or_dupe(h: NodeHealth, is_new: bool, now_ms: u64)
    requires
        h.wins < u64::MAX,
        h.dupes < u64::MAX,
    ensures
        health_after_message(h, is_new, now_ms).wins + health_after_message(
            h,
            is_new,
            now_ms,
        ).dupes == h.wins + h.dupes + 1,
{
}

/// An update of an upstream on its way to the clients.
#[derive(Debug)]
pub struct Relayed {
    /// The parts on which decisions rest.
    pub parts: SubscribeUpdate,
    /// The message as it came, but for the names of filters.
    pub body: Vec<u8>,
}

/// A message to a client.
#[derive(Debug)]
pub struct Delivery {
    /// The names of the client's own filters that the message matches.
    pub filters: Vec<String>,
    /// The rest of the message.
    pub body: Vec<u8>,
}

/// A client of the shared subscription.
pub struct Subscriber {
    pub filters: CompiledFilters,
    /// How often the client fell behind.
    pub lag_count: u64,
    pub max_lag_events: u64,
}

/// `r` is what comes of a client's falling behind once more, and `after` the client after it.
pub open spec fn is_lag(before: Subscriber, after: Subscriber, r: Option<GrpcStatus>) -> bool {
    &&& after.filters == before.filters
    &&& after.max_lag_events == before.max_lag_events
    &&& after.lag_count == before.lag_count + 1
    &&& match r {
        Some(s) => {
            &&& before.lag_count + 1 >= before.max_lag_events
            &&& s.says(
                GrpcCode::DataLoss,
                "Stream too slow: disconnected due to repeated message lag"@,
            )
        },
        None => after.live(),
    }
}

/// A client that falls behind time after time is disconnected the time that the configuration names, or
/// the first, where it names none, and not before.
pub proof fn law_slow_client_is_disconnected_in_time(
    before: Subscriber,
    after: Subscriber,
    r: Option<GrpcStatus>,
)
    requires
        is_lag(before, after, r),
    ensures
        after.lag_count == before.lag_count + 1,
        r is Some <==> after.lag_count >= after.max_lag_events,
        after.max_lag_events == before.max_lag_events,
        after.filters == before.filters,
        r is Some ==> r->0.code == GrpcCode::DataLoss,
{
}

/// What came of handing a message to a client without waiting.
#[derive(Debug, Clone, Copy, PartialEq, Eq, Structural)]
pub enum TrySend {
    Sent,
    Full,
    Closed,
}

/// What to do after handing a message to a client.
#[derive(Debug, Clone, Copy, PartialEq, Eq, Structural)]
pub enum AfterSend {
    Next,
    /// Hand it over again, and wait until there is room.
    WaitForRoom,
    Stop,
}

/// What to do after handing a message over without waiting.
pub open spec fn after_send(outcome: TrySend) -> AfterSend {
    match outcome {
        TrySend::Sent => AfterSend::Next,
        TrySend::Full => AfterSend::WaitForRoom,
        TrySend::Closed => AfterSend::Stop,
    }
}

/// A client is given up only where it is gone; no message is dropped for want of room.
pub proof fn law_no_message_is_dropped_for_want_of_room(outcome: TrySend)
    ensures
        after_send(outcome) == AfterSend::Stop <==> outcome == TrySend::Closed,
        after_send(outcome) == AfterSend::Next <==> outcome == TrySend::Sent,
        after_send(outcome) == AfterSend::WaitForRoom <==> outcome == TrySend::Full,
{
}

/// `r` is what a client gets of an update.
pub open spec fn is_delivery(
    filters: CompiledFilters,
    update: Relayed,
    r: Option<Delivery>,
) -> bool {
    match r {
        Some(d) => {
            &&& grpc_filter::matching(filters, update.parts) == Some(text::views(d.filters@))
            &&& d.body@ == update.body@
        },
        None => grpc_filter::matching(filters, update.parts) is None,
    }
}

/// What clients get of one update is the same message for each, under the names of its own filters.
pub proof fn law_clients_get_the_same_message(
    a: CompiledFilters,
    b: CompiledFilters,
    update: Relayed,
    to_a: Option<Delivery>,
    to_b: Option<Delivery>,
)
    requires
        is_delivery(a, update, to_a),
        is_delivery(b, update, to_b),
    ensures
        to_a is Some ==> to_a->0.body@ == update.body@,
        to_a is Some && to_b is Some ==> to_a->0.body@ == to_b->0.body@,
        to_a is Some <==> grpc_filter::matching(a, update.parts) is Some,
        to_a is Some ==> text::views(to_a->0.filters@) == grpc_filter::matching(a, update.parts)->0,
{
}

impl Subscriber {
    /// The client has not been disconnected for falling behind.
    pub open spec fn live(self) -> bool {
        self.lag_count == 0 || self.lag_count < self.max_lag_events
    }

    /// The names of the client's filters that an update matches; nothing where it is not for the
    /// client.
    pub fn on_update(&self, update: &SubscribeUpdate) -> (r: Option<Vec<String>>)
        ensures
            grpc_filter::opt_views(r) == grpc_filter::matching(self.filters, *update),
    {
        self.filters.match_update(update)
    }

    /// What the client gets of an update: the message as it came, under the names of the client's
    /// filters that it matches; nothing where it is not for the client.
    pub fn hand_out(&self, update: &Relayed) -> (r: Option<Delivery>)
        ensures
            is_delivery(self.filters, *update, r),
    {
        match self.on_update(&update.parts) {
            Some(filters) => {
                let body = update.body.clone();
                assert(body@ =~= update.body@);
                Some(Delivery { filters, body })
            },
            None => None,
        }
    }

    /// Notes that the client fell behind; the last time that is tolerated ends the subscription,
    /// with this status.
    pub fn on_lag(&mut self) -> (r: Option<GrpcStatus>)
        requires
            old(self).live(),
        ensures
            is_lag(*old(self), *final(self), r),
    {
        self.lag_count = self.lag_count + 1;
        if self.lag_count >= self.max_lag_events {
            Some(
                GrpcStatus::new(
                    GrpcCode::DataLoss,
                    "Stream too slow: disconnected due to repeated message lag",
                ),
            )
        } else {
            None
        }
    }

    /// What to do after handing a message over without waiting.
    pub fn after_try_send(outcome: TrySend) -> (r: AfterSend)
        ensures
            r == after_send(outcome),
    {
        match outcome {
            TrySend::Sent => AfterSend::Next,
            TrySend::Full => AfterSend::WaitForRoom,
            TrySend::Closed => AfterSend::Stop,
        }
    }
}

/// How a channel to a node's gRPC side is had.
#[derive(Debug, Clone, Copy, PartialEq, Eq, Structural)]
pub enum ChannelSource {
    /// From the pool.
    Pool,
    /// By connecting to the node's URL.
    Fresh,
}

/// The node that the shared stream comes from in the mode with one upstream, and how its channel is
/// had.
pub open spec fn is_single_upstream(
    nodes: Seq<NodeEntry>,
    ids: Seq<String>,
    pool: GrpcPool,
    r: Result<(&NodeEntry, ChannelSource), String>,
) -> bool {
    match r {
        Ok((n, source)) => {
            &&& router::is_pick(nodes, router::listed_grpc_healthy(ids), Some(*n))
            &&& source == source_for(pool, n.config.id@)
        },
        Err(e) => {
            &&& router::is_pick(nodes, router::listed_grpc_healthy(ids), None)
            &&& e@ == "No healthy gRPC nodes"@
        },
    }
}

/// The only upstream is one that serves gRPC calls: listed, not down, and its gRPC side answers; no node
/// of which that holds has a lower priority, and it comes from the pool exactly where that has a channel.
pub proof fn law_only_upstream_can_serve(
    nodes: Seq<NodeEntry>,
    ids: Seq<String>,
    pool: GrpcPool,
    r: Result<(&NodeEntry, ChannelSource), String>,
    j: int,
)
    requires
        is_single_upstream(nodes, ids, pool, r),
        0 <= j < nodes.len(),
    ensures
        r matches Ok((n, source)) ==> {
            &&& exists|i: int| 0 <= i < ids.len() && (#[trigger] ids[i])@ == n.config.id@
            &&& n.health.status < 2
            &&& n.health.grpc_healthy
            &&& source == ChannelSource::Pool <==> pool.channels@.contains_key(n.config.id@)
            &&& router::listed(ids)(nodes[j]) && nodes[j].health.status < 2
                && nodes[j].health.grpc_healthy ==> n.config.priority <= nodes[j].config.priority
        },
        r is Err && router::listed(ids)(nodes[j]) && nodes[j].health.status < 2
            ==> !nodes[j].health.grpc_healthy,
{
    let ok = router::listed_grpc_healthy(ids);
    router::law_who_may_be_chosen(ids, nodes[j]);
    match r {
        Ok((n, _)) => {
            router::law_pick_is_the_first_by_priority(nodes, ok, Some(*n));
            router::law_who_may_be_chosen(ids, *n);
        },
        Err(_) => router::law_pick_is_the_first_by_priority(nodes, ok, None),
    }
}

/// The node that the shared stream comes from in the mode with one upstream, and how its channel is
/// had.
pub fn single_upstream<'a>(router: &'a Router, pool: &GrpcPool) -> (r: Result<
    (&'a NodeEntry, ChannelSource),
    String,
>)
    requires
        pool.wf(),
    ensures
        is_single_upstream(router.nodes@, router.grpc_node_ids@, *pool, r),
{
    match router.pick_grpc_node() {
        Some(n) => Ok((n, channel_source(pool, n.config.id.as_str()))),
        None => Err("No healthy gRPC nodes".to_string()),
    }
}

/// The pool is used where it has a channel for the node.
pub open spec fn source_for(pool: GrpcPool, node_id: Seq<char>) -> ChannelSource {
    if pool.channels@.contains_key(node_id) {
        ChannelSource::Pool
    } else {
        ChannelSource::Fresh
    }
}

/// How a channel to a node is had.
pub fn channel_source(pool: &GrpcPool, node_id: &str) -> (r: ChannelSource)
    requires
        pool.wf(),
    ensures
        r == source_for(*pool, node_id@),
{
    match pool.get_channel(node_id) {
        Some(_) => ChannelSource::Pool,
        None => ChannelSource::Fresh,
    }
}

/// Whether a node's token goes along with a request: where there is one and it can stand in
/// metadata.
pub open spec fn token_is_sent(x_token: Seq<char>) -> bool {
    x_token.len() > 0 && forall|i: int|
        0 <= i < x_token.len() ==> codec::is_metadata_char(#[trigger] x_token[i])
}

/// A node's token goes along exactly where there is one and none of its characters is a control
/// character other than the tab.
pub proof fn law_token_goes_along_where_it_can(x_token: Seq<char>, i: int)
    ensures
        x_token.len() == 0 ==> !token_is_sent(x_token),
        0 <= i < x_token.len() && (x_token[i] < ' ' && x_token[i] != '\t' || x_token[i]
            == '\u{7f}') ==> !token_is_sent(x_token),
        x_token.len() > 0 && (forall|j: int|
            0 <= j < x_token.len() ==> ' ' <= #[trigger] x_token[j] && x_token[j] != '\u{7f}') ==>
            token_is_sent(x_token),
{
}

/// Whether a node's token goes along with a request.
pub fn inject_token(x_token: &str) -> (r: bool)
    ensures
        r == token_is_sent(x_token@),
{
    x_token.unicode_len() > 0 && codec::is_metadata_value(x_token)
}

/// What comes out of an upstream's stream.
#[derive(Debug, Clone, Copy, PartialEq, Eq, Structural)]
pub enum StreamItem {
    Message,
    Failed,
    Ended,
}

/// What to do about it.
#[derive(Debug, Clone, Copy, PartialEq, Eq, Structural)]
pub enum StreamNext {
    /// Hand the message on.
    Deliver,
    /// Read on.
    Read,
    /// Give the node's channel up, and count the attempt as failed.
    InvalidateAndFail,
    /// Count the attempt as ended cleanly.
    EndCleanly,
}

/// A stream from an upstream.
#[derive(Debug, Clone, Copy, PartialEq, Eq, Structural)]
pub struct UpstreamStream {
    /// The id of the last ping.
    pub ping_id: i32,
}

/// A request in which nothing is subscribed to.
pub open spec fn asks_for_nothing(r: SubscribeRequest) -> bool {
    &&& r.accounts.entries@.len() == 0
    &&& r.slots.entries@.len() == 0
    &&& r.transactions.entries@.len() == 0
    &&& r.transactions_status@.len() == 0
    &&& r.blocks@.len() == 0
    &&& r.blocks_meta@.len() == 0
    &&& r.entry@.len() == 0
    &&& r.commitment is None
}

fn empty_request() -> (r: SubscribeRequest)
    ensures
        r.wf(),
        asks_for_nothing(r),
        r.ping is None,
{
    SubscribeRequest {
        accounts: NameMap::new(),
        slots: NameMap::new(),
        transactions: NameMap::new(),
        transactions_status: Vec::new(),
        blocks: Vec::new(),
        blocks_meta: Vec::new(),
        entry: Vec::new(),
        commitment: None,
        ping: None,
    }
}

/// What to do about what came out of the stream.
pub open spec fn after_item(item: StreamItem) -> StreamNext {
    match item {
        StreamItem::Message => StreamNext::Deliver,
        StreamItem::Failed => StreamNext::InvalidateAndFail,
        StreamItem::Ended => StreamNext::EndCleanly,
    }
}

/// What to do after handing a message on.
pub open spec fn after_delivery(taken: bool) -> StreamNext {
    if taken {
        StreamNext::Read
    } else {
        StreamNext::EndCleanly
    }
}

/// Every message of a stream is handed on; a channel is given up exactly where its stream failed, and a
/// stream is read on as long as somebody takes its messages.
pub proof fn law_stream_is_read_to_its_end(item: StreamItem, taken: bool)
    ensures
        after_item(item) == StreamNext::Deliver <==> item == StreamItem::Message,
        after_item(item) == StreamNext::InvalidateAndFail <==> item == StreamItem::Failed,
        after_item(item) == StreamNext::EndCleanly <==> item == StreamItem::Ended,
        after_delivery(taken) == StreamNext::Read <==> taken,
        after_delivery(taken) == StreamNext::EndCleanly <==> !taken,
{
}

/// The next ping of a stream.
pub open spec fn is_next_ping(
    before: UpstreamStream,
    after: UpstreamStream,
    r: SubscribeRequest,
) -> bool {
    &&& after.ping_id == before.ping_id.wrapping_add(1)
    &&& r.ping == Some(after.ping_id)
    &&& asks_for_nothing(r)
}

/// A ping carries the number after that of the one before, and changes nothing of what is subscribed to:
/// it asks for nothing.
pub proof fn law_pings_count_up(before: UpstreamStream, after: UpstreamStream, r: SubscribeRequest)
    requires
        is_next_ping(before, after, r),
        before.ping_id < i32::MAX,
    ensures
        r.ping == Some((before.ping_id + 1) as i32),
        after.ping_id == before.ping_id + 1,
        r.accounts.entries@.len() == 0,
        r.slots.entries@.len() == 0,
        r.transactions.entries@.len() == 0,
        r.transactions_status@.len() == 0,
        r.blocks@.len() == 0,
        r.blocks_meta@.len() == 0,
        r.entry@.len() == 0,
        r.commitment is None,
{
}

impl UpstreamStream {
    /// No ping has been sent.
    pub fn new() -> (s: UpstreamStream)
        ensures
            s.ping_id == 0,
    {
        UpstreamStream { ping_id: 0 }
    }

    /// The next ping; ids count up, and wrap.
    pub fn next_ping(&mut self) -> (r: SubscribeRequest)
        ensures
            is_next_ping(*old(self), *final(self), r),
    {
        self.ping_id = self.ping_id.wrapping_add(1);
        let mut r = empty_request();
        r.ping = Some(self.ping_id);
        r
    }

    /// What to do about what came out of the stream.
    pub fn on_item(item: StreamItem) -> (r: StreamNext)
        ensures
            r == after_item(item),
    {
        match item {
            StreamItem::Message => StreamNext::Deliver,
            StreamItem::Failed => StreamNext::InvalidateAndFail,
            StreamItem::Ended => StreamNext::EndCleanly,
        }
    }

    /// What to do after handing a message on; where nobody takes it any more, the stream ends.
    pub fn on_delivered(taken: bool) -> (r: StreamNext)
        ensures
            r == after_delivery(taken),
    {
        if taken {
            StreamNext::Read
        } else {
            StreamNext::EndCleanly
        }
    }
}

/// The request that subscribes to all that the clients can be served from: every transaction, every
/// slot, every block's metadata and every entry, as soon as processed.
pub open spec fn is_mux_request(r: SubscribeRequest) -> bool {
    &&& r.accounts.entries@.len() == 0
    &&& r.transactions_status@.len() == 0
    &&& r.blocks@.len() == 0
    &&& r.transactions.entries@.len() == 1
    &&& r.transactions.entries@[0].0@ == "mux_tx"@
    &&& ({
        let f = r.transactions.entries@[0].1;
        &&& f.vote is None
        &&& f.failed is None
        &&& f.signature is None
        &&& f.account_include@.len() == 0
        &&& f.account_exclude@.len() == 0
        &&& f.account_required@.len() == 0
    })
    &&& r.slots.entries@.len() == 1
    &&& r.slots.entries@[0].0@ == "mux_slot"@
    &&& r.slots.entries@[0].1.filter_by_commitment is None
    &&& r.slots.entries@[0].1.interslot_updates == Some(false)
    &&& text::views(r.blocks_meta@) == seq!["mux_blocks_meta"@]
    &&& text::views(r.entry@) == seq!["mux_entry"@]
    &&& r.commitment == Some(COMMITMENT_PROCESSED)
    &&& r.ping is None
}

/// The request that subscribes to all that the clients can be served from.
pub fn build_mux_subscribe_request() -> (r: SubscribeRequest)
    ensures
        r.wf(),
        is_mux_request(r),
{
    let mut r = empty_request();
    r.transactions.entries.push(
        (
            "mux_tx".to_string(),
            TransactionsFilter {
                vote: None,
                failed: None,
                signature: None,
                account_include: Vec::new(),
                account_exclude: Vec::new(),
                account_required: Vec::new(),
            },
        ),
    );
    r.slots.entries.push(
        (
            "mux_slot".to_string(),
            SlotsFilter { filter_by_commitment: None, interslot_updates: Some(false) },
        ),
    );
    r.blocks_meta.push("mux_blocks_meta".to_string());
    r.entry.push("mux_entry".to_string());
    r.commitment = Some(COMMITMENT_PROCESSED);
    assert(text::views(r.blocks_meta@) =~= seq!["mux_blocks_meta"@]);
    assert(text::views(r.entry@) =~= seq!["mux_entry"@]);
    r
}

/// The shared stream's own subscription asks for what it can serve and for nothing besides: one open
/// filter on transactions, one on slots that leaves out what comes in between, block metadata and
/// entries, at the lowest commitment.
pub proof fn law_mux_request_asks_for_what_is_served(r: SubscribeRequest)
    requires
        is_mux_request(r),
    ensures
        r.accounts.entries@.len() == 0 && r.blocks@.len() == 0 && r.transactions_status@.len() == 0,
        r.transactions.entries@.len() == 1 && r.slots.entries@.len() == 1,
        r.blocks_meta@.len() == 1 && r.entry@.len() == 1,
        r.transactions.entries@[0].1.vote is None && r.transactions.entries@[0].1.failed is None
            && r.transactions.entries@[0].1.signature is None,
        r.transactions.entries@[0].1.account_include@.len() == 0
            && r.transactions.entries@[0].1.account_exclude@.len() == 0
            && r.transactions.entries@[0].1.account_required@.len() == 0,
        r.slots.entries@[0].1.filter_by_commitment is None,
        r.slots.entries@[0].1.interslot_updates == Some(false),
        r.commitment == Some(0i32),
        r.ping is None,
{
    assert(text::views(r.blocks_meta@).len() == 1);
    assert(text::views(r.entry@).len() == 1);
}

/// What a client's filters match, the shared stream's own subscription matches too, so that a client
/// of the shared stream misses nothing.
pub proof fn law_mux_request_misses_nothing(
    r: SubscribeRequest,
    shared: CompiledFilters,
    client: CompiledFilters,
    update: SubscribeUpdate,
)
    requires
        is_mux_request(r),
        grpc_filter::is_compiled_request(shared, r),
        grpc_filter::matching(client, update) is Some,
    ensures
        grpc_filter::matching(shared, update) is Some,
{
    let entries = shared.transactions.entries@;
    assert(shared.transactions.names().len() == 1);
    assert(entries.len() == 1);
    let f = entries[0].1;
    assert(grpc_filter::is_compiled(f, r.transactions.entries@[0].1));
    assert(f.account_include@ =~= Set::<Seq<u8>>::empty());
    assert(f.account_exclude@ =~= Set::<Seq<u8>>::empty());
    assert(f.account_required@ =~= Set::<Seq<u8>>::empty());
    assert(entries.drop_last() =~= Seq::<(String, grpc_filter::CompiledTxFilter)>::empty());
    reveal_with_fuel(grpc_filter::passing_names, 2);
    if let Some(UpdateOneof::Transaction(Some(info))) = update.update_oneof {
        grpc_filter::law_open_filter_passes_all(f, info);
        assert(grpc_filter::passing_names(entries, info).len() == 1);
    }
    assert(shared.slots.names().len() == 1);
    assert(text::views(shared.blocks_meta@).len() == 1);
    assert(text::views(shared.entry@).len() == 1);
}

} // verus!
