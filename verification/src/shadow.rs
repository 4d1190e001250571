//! The plan of the shadow test, which probes how an upstream takes changes of a subscription while
//! it runs.

use crate::codec;
use crate::names::NameMap;
use crate::proxy::geyser::{
    AccountsFilter, SlotsFilter, SubscribeRequest, SubscribeUpdate, UpdateOneof,
};
use crate::proxy::grpc_mux::{TrySend, COMMITMENT_PROCESSED};
use crate::text;
use vstd::prelude::*;
use vstd::string::StringExecFns;

verus! {

/// The fewest wallets that a test can do with.
pub const MIN_WALLETS: usize = 100;

/// How many wallets the test begins with.
pub const INITIAL_WALLETS: usize = 50;

/// How many milliseconds the filter is switched back and forth.
pub const CHURN_MS: u64 = 60000;

/// What has come out of the stream.
#[derive(Debug, Clone, Copy, PartialEq, Eq, Structural)]
pub struct Counters {
    pub accounts: u64,
    pub slots: u64,
    pub blocks_meta: u64,
    pub pings: u64,
    pub pongs: u64,
    pub other: u64,
    pub errors: u64,
    pub last_slot: u64,
    /// The time of the first account update since the filter was last changed.
    pub first_account_after_swap_at: Option<u128>,
}

/// What has come out of the stream with one update more.
pub open spec fn counted(c: Counters, update: SubscribeUpdate, now: u128) -> Counters {
    match update.update_oneof {
        Some(UpdateOneof::Account) => Counters {
            accounts: (c.accounts + 1) as u64,
            first_account_after_swap_at: if c.first_account_after_swap_at is None {
                Some(now)
            } else {
                c.first_account_after_swap_at
            },
            ..c
        },
        Some(UpdateOneof::Slot { slot, .. }) => Counters {
            slots: (c.slots + 1) as u64,
            last_slot: slot,
            ..c
        },
        Some(UpdateOneof::BlockMeta { .. }) => Counters {
            blocks_meta: (c.blocks_meta + 1) as u64,
            ..c
        },
        Some(UpdateOneof::Ping) => Counters { pings: (c.pings + 1) as u64, ..c },
        Some(UpdateOneof::Pong { .. }) => Counters { pongs: (c.pongs + 1) as u64, ..c },
        _ => Counters { other: (c.other + 1) as u64, ..c },
    }
}

/// What has come out of the stream with an error more.
pub open spec fn after_error(c: Counters) -> Counters {
    Counters { errors: (c.errors + 1) as u64, ..c }
}

/// What has come out of the stream when its filter has just been changed.
pub open spec fn after_swap(c: Counters) -> Counters {
    Counters { first_account_after_swap_at: None, ..c }
}

/// How long after the filter was sent an account update first came, if one did.
pub open spec fn latency(first: Option<u128>, sent_at: u128) -> Option<u128> {
    match first {
        Some(at) => Some(
            if at > sent_at {
                (at - sent_at) as u128
            } else {
                0
            },
        ),
        None => None,
    }
}

/// Every count of `a` is at most that of `b`.
pub open spec fn at_most(a: Counters, b: Counters) -> bool {
    &&& a.accounts <= b.accounts
    &&& a.slots <= b.slots
    &&& a.blocks_meta <= b.blocks_meta
    &&& a.pings <= b.pings
    &&& a.pongs <= b.pongs
    &&& a.errors <= b.errors
}

/// A line that tells what came in between.
pub open spec fn delta_text(label: Seq<char>, before: Counters, after: Counters) -> Seq<char> {
    "- "@ + label + ": Δaccounts="@ + text::decimal((after.accounts - before.accounts) as nat)
        + " Δslots="@ + text::decimal((after.slots - before.slots) as nat) + " Δblocks_meta="@
        + text::decimal((after.blocks_meta - before.blocks_meta) as nat) + " Δpings="@
        + text::decimal((after.pings - before.pings) as nat) + " Δpongs="@ + text::decimal(
        (after.pongs - before.pongs) as nat,
    ) + " Δerrors="@ + text::decimal((after.errors - before.errors) as nat) + " last_slot="@
        + text::decimal(after.last_slot as nat)
}

impl Counters {
    /// No count has reached its end.
    pub open spec fn has_room(self) -> bool {
        &&& self.accounts < u64::MAX
        &&& self.slots < u64::MAX
        &&& self.blocks_meta < u64::MAX
        &&& self.pings < u64::MAX
        &&& self.pongs < u64::MAX
        &&& self.other < u64::MAX
        &&& self.errors < u64::MAX
    }

    /// Nothing has come yet.
    pub fn new() -> (c: Counters)
        ensures
            c == (Counters {
                accounts: 0,
                slots: 0,
                blocks_meta: 0,
                pings: 0,
                pongs: 0,
                other: 0,
                errors: 0,
                last_slot: 0,
                first_account_after_swap_at: None,
            }),
    {
        Counters {
            accounts: 0,
            slots: 0,
            blocks_meta: 0,
            pings: 0,
            pongs: 0,
            other: 0,
            errors: 0,
            last_slot: 0,
            first_account_after_swap_at: None,
        }
    }

    /// Counts an update.
    pub fn on_update(&mut self, update: &SubscribeUpdate, now: u128)
        requires
            old(self).has_room(),
        ensures
            *final(self) == counted(*old(self), *update, now),
    {
        match &update.update_oneof {
            Some(UpdateOneof::Account) => {
                self.accounts = self.accounts + 1;
                if self.first_account_after_swap_at.is_none() {
                    self.first_account_after_swap_at = Some(now);
                }
            },
            Some(UpdateOneof::Slot { slot, .. }) => {
                self.slots = self.slots + 1;
                self.last_slot = *slot;
            },
            Some(UpdateOneof::BlockMeta { .. }) => {
                self.blocks_meta = self.blocks_meta + 1;
            },
            Some(UpdateOneof::Ping) => {
                self.pings = self.pings + 1;
            },
            Some(UpdateOneof::Pong { .. }) => {
                self.pongs = self.pongs + 1;
            },
            _ => {
                self.other = self.other + 1;
            },
        }
    }

    /// Counts an error, after which nothing more comes.
    pub fn on_error(&mut self)
        requires
            old(self).has_room(),
        ensures
            *final(self) == after_error(*old(self)),
    {
        self.errors = self.errors + 1;
    }

    /// Forgets when an account update first came, after the filter was changed.
    pub fn on_swap(&mut self)
        ensures
            *final(self) == after_swap(*old(self)),
    {
        self.first_account_after_swap_at = None;
    }

    /// How long after the filter was sent an account update first came, if one did.
    pub fn swap_latency(&self, sent_at: u128) -> (r: Option<u128>)
        ensures
            r == latency(self.first_account_after_swap_at, sent_at),
    {
        match self.first_account_after_swap_at {
            Some(at) => if at > sent_at {
                Some(at - sent_at)
            } else {
                Some(0)
            },
            None => None,
        }
    }

    /// A line that tells what came in between.
    pub fn print_delta(label: &str, before: &Counters, after: &Counters) -> (r: String)
        requires
            at_most(*before, *after),
        ensures
            r@ == delta_text(label@, *before, *after),
    {
        let mut s = text::concat("- ", label);
        s.append(": Δaccounts=");
        text::push_decimal(&mut s, after.accounts - before.accounts);
        s.append(" Δslots=");
        text::push_decimal(&mut s, after.slots - before.slots);
        s.append(" Δblocks_meta=");
        text::push_decimal(&mut s, after.blocks_meta - before.blocks_meta);
        s.append(" Δpings=");
        text::push_decimal(&mut s, after.pings - before.pings);
        s.append(" Δpongs=");
        text::push_decimal(&mut s, after.pongs - before.pongs);
        s.append(" Δerrors=");
        text::push_decimal(&mut s, after.errors - before.errors);
        s.append(" last_slot=");
        text::push_decimal(&mut s, after.last_slot);
        s
    }
}

/// Counting never takes anything back.
pub proof fn law_counts_only_grow(c: Counters, update: SubscribeUpdate, now: u128)
    requires
        c.has_room(),
    ensures
        at_most(c, counted(c, update, now)),
{
}

/// The subscription to accounts, and besides to slots and block metadata.
pub open spec fn is_shadow_request(r: SubscribeRequest, account_pubkeys: Seq<String>) -> bool {
    &&& r.accounts.entries@.len() == 1
    &&& r.accounts.entries@[0].0@ == "shadow_accounts"@
    &&& r.accounts.entries@[0].1.account@ == account_pubkeys
    &&& r.slots.entries@.len() == 1
    &&& r.slots.entries@[0].0@ == "shadow_slots"@
    &&& r.slots.entries@[0].1.filter_by_commitment is None
    &&& r.slots.entries@[0].1.interslot_updates == Some(false)
    &&& r.transactions.entries@.len() == 0
    &&& r.transactions_status@.len() == 0
    &&& r.blocks@.len() == 0
    &&& text::views(r.blocks_meta@) == seq!["shadow_blocks_meta"@]
    &&& r.entry@.len() == 0
    &&& r.commitment == Some(COMMITMENT_PROCESSED)
    &&& r.ping is None
}

/// The subscription to accounts, and besides to slots and block metadata.
pub fn build_request(account_pubkeys: &Vec<String>) -> (r: SubscribeRequest)
    ensures
        r.wf(),
        is_shadow_request(r, account_pubkeys@),
{
    let mut accounts: NameMap<AccountsFilter> = NameMap::new();
    accounts.entries.push(
        (
            "shadow_accounts".to_string(),
            AccountsFilter { account: text::clone_strings(account_pubkeys) },
        ),
    );
    let mut slots: NameMap<SlotsFilter> = NameMap::new();
    slots.entries.push(
        (
            "shadow_slots".to_string(),
            SlotsFilter { filter_by_commitment: None, interslot_updates: Some(false) },
        ),
    );
    let r = SubscribeRequest {
        accounts,
        slots,
        transactions: NameMap::new(),
        transactions_status: Vec::new(),
        blocks: Vec::new(),
        blocks_meta: vec!["shadow_blocks_meta".to_string()],
        entry: Vec::new(),
        commitment: Some(COMMITMENT_PROCESSED),
        ping: None,
    };
    assert(text::views(r.blocks_meta@) =~= seq!["shadow_blocks_meta"@]);
    r
}

/// About how many bytes a request takes for accounts: two more than the text of each.
pub open spec fn request_bytes(account_pubkeys: Seq<String>) -> nat
    decreases account_pubkeys.len(),
{
    if account_pubkeys.len() == 0 {
        0
    } else {
        request_bytes(account_pubkeys.drop_last()) + vstd::utf8::encode_utf8(
            account_pubkeys.last()@,
        ).len() + 2
    }
}

/// The whole kilobytes in bytes.
pub open spec fn kilobytes(bytes: nat) -> nat {
    bytes / 1024
}

/// About how many kilobytes a request takes for accounts.
pub fn request_kb(account_pubkeys: &Vec<String>) -> (r: u128)
    ensures
        r == kilobytes(request_bytes(account_pubkeys@)),
{
    let mut total: u128 = 0;
    let mut i: usize = 0;
    assert(account_pubkeys@.take(0) =~= Seq::<String>::empty());
    while i < account_pubkeys.len()
        invariant
            i <= account_pubkeys@.len(),
            total == request_bytes(account_pubkeys@.take(i as int)),
            total <= i * 0x1_0000_0000_0000_0001,
        decreases account_pubkeys@.len() - i,
    {
        assert(account_pubkeys@.take(i + 1).drop_last() =~= account_pubkeys@.take(i as int));
        let n: usize = account_pubkeys[i].as_str().as_bytes().len();
        total = total + n as u128 + 2;
        i = i + 1;
    }
    assert(account_pubkeys@.take(i as int) =~= account_pubkeys@);
    total / 1024
}

/// The smaller of two numbers.
pub open spec fn smaller(a: int, b: int) -> int {
    if a < b {
        a
    } else {
        b
    }
}

/// The sizes to which the filter is grown, given how many wallets there are.
pub open spec fn grow_target(k: int, wallets: int) -> int {
    smaller(
        if k == 0 {
            200
        } else if k == 1 {
            1000
        } else if k == 2 {
            5000
        } else if k == 3 {
            10000
        } else if k == 4 {
            20000
        } else {
            25000
        },
        wallets,
    )
}

/// How often the filter is grown at most.
pub const GROW_STEPS: usize = 6;

/// Grows the filter step by step.
#[derive(Debug, Clone, Copy, PartialEq, Eq, Structural)]
pub struct GrowPlan {
    pub wallets: usize,
    /// How many wallets the filter holds.
    pub union_len: usize,
    /// How many targets have been looked at.
    pub at: usize,
}

impl GrowPlan {
    /// The filter holds at least the wallets that it began with, no more than there are, and no fewer
    /// than any target that has been looked at.
    pub open spec fn wf(self) -> bool {
        &&& MIN_WALLETS <= self.wallets
        &&& INITIAL_WALLETS <= self.union_len <= smaller(self.wallets as int, 25000)
        &&& self.at <= GROW_STEPS
        &&& forall|k: int|
            0 <= k < self.at ==> #[trigger] grow_target(k, self.wallets as int) <= self.union_len
    }

    /// `next` is the plan after the filter was grown to `size`, that of the next target beyond its
    /// size, or after no such target was left.
    pub open spec fn grows_to(self, next: GrowPlan, size: Option<usize>) -> bool {
        &&& next.wallets == self.wallets
        &&& match size {
            Some(n) => {
                &&& n == grow_target(next.at - 1, self.wallets as int)
                &&& self.at < next.at
                &&& n > self.union_len
                &&& next.union_len == n
                &&& forall|k: int|
                    self.at <= k < next.at - 1 ==> #[trigger] grow_target(k, self.wallets as int)
                        <= self.union_len
            },
            None => {
                &&& next.at == GROW_STEPS
                &&& next.union_len == self.union_len
                &&& forall|k: int|
                    self.at <= k < GROW_STEPS ==> #[trigger] grow_target(k, self.wallets as int)
                        <= self.union_len
            },
        }
    }

    /// A plan for as many wallets, where they are enough.
    pub open spec fn is_first(wallets: usize, r: Result<GrowPlan, String>) -> bool {
        match r {
            Ok(p) => {
                &&& wallets >= MIN_WALLETS
                &&& p == (GrowPlan { wallets, union_len: INITIAL_WALLETS, at: 0 })
            },
            Err(e) => {
                &&& wallets < MIN_WALLETS
                &&& e@ == "wallet list too small: "@ + text::decimal(wallets as nat)
            },
        }
    }

    /// A plan for as many wallets, where they are enough.
    pub fn new(wallets: usize) -> (r: Result<GrowPlan, String>)
        ensures
            r is Ok ==> r->Ok_0.wf(),
            Self::is_first(wallets, r),
    {
        if wallets < MIN_WALLETS {
            let mut s = "wallet list too small: ".to_string();
            text::push_decimal(&mut s, wallets as u64);
            return Err(s);
        }
        Ok(GrowPlan { wallets, union_len: INITIAL_WALLETS, at: 0 })
    }

    /// The size to which the filter is grown next: that of the next target beyond its size, if any
    /// is left.
    pub fn next_size(&mut self) -> (r: Option<usize>)
        requires
            old(self).wf(),
        ensures
            final(self).wf(),
            old(self).grows_to(*final(self), r),
    {
        let ghost start = self.at as int;
        while self.at < GROW_STEPS
            invariant
                self.wf(),
                start == old(self).at,
                start <= self.at,
                self.wallets == old(self).wallets,
                self.union_len == old(self).union_len,
                forall|k: int|
                    start <= k < self.at ==> #[trigger] grow_target(k, self.wallets as int)
                        <= self.union_len,
            decreases GROW_STEPS - self.at,
        {
            let full: usize = match self.at {
                0 => 200,
                1 => 1000,
                2 => 5000,
                3 => 10000,
                4 => 20000,
                _ => 25000,
            };
            let target: usize = if full < self.wallets {
                full
            } else {
                self.wallets
            };
            assert(target == grow_target(self.at as int, self.wallets as int));
            self.at = self.at + 1;
            if target > self.union_len {
                self.union_len = target;
                return Some(target);
            }
        }
        None
    }
}

/// The filter only grows, and where growing goes on to the end, it holds all wallets up to the
/// highest target.
pub proof fn law_growth_reaches_all(plan: GrowPlan, next: GrowPlan, size: Option<usize>)
    requires
        plan.wf(),
        next.wf(),
        plan.grows_to(next, size),
    ensures
        size is Some ==> next.union_len > plan.union_len,
        size is None ==> next.union_len == smaller(plan.wallets as int, 25000),
{
    assert(grow_target(GROW_STEPS - 1, plan.wallets as int) == smaller(
        25000,
        plan.wallets as int,
    ));
}

/// What a list of wallets comes to, or the error with which it could not be read: the wallets and a
/// plan for as many, where they are enough.
pub open spec fn is_start(
    parsed: Result<Seq<Seq<char>>, Seq<char>>,
    r: Result<(Vec<String>, GrowPlan), String>,
) -> bool {
    match parsed {
        Ok(wallets) => if wallets.len() >= MIN_WALLETS {
            &&& r is Ok
            &&& text::views(r->Ok_0.0@) == wallets
            &&& r->Ok_0.1.wf()
            &&& r->Ok_0.1 == (GrowPlan {
                wallets: wallets.len() as usize,
                union_len: INITIAL_WALLETS,
                at: 0,
            })
        } else {
            r is Err && r->Err_0@ == "wallet list too small: "@ + text::decimal(wallets.len())
        },
        Err(e) => r is Err && r->Err_0@ == e,
    }
}

/// The wallets that were read and a plan for as many, where they are enough.
pub fn start_with(parsed: Result<Vec<String>, String>) -> (r: Result<
    (Vec<String>, GrowPlan),
    String,
>)
    ensures
        is_start(codec::texts_or_error(parsed), r),
{
    match parsed {
        Ok(wallets) => match GrowPlan::new(wallets.len()) {
            Ok(plan) => Ok((wallets, plan)),
            Err(e) => Err(e),
        },
        Err(e) => Err(e),
    }
}

/// The wallets of a JSON array of strings and a plan for as many, where they are enough.
pub fn load_wallets(body: &[u8]) -> (r: Result<(Vec<String>, GrowPlan), String>)
    ensures
        is_start(codec::json_texts(body@), r),
{
    start_with(codec::json_text_list(body))
}

/// The first wallets of a list.
pub fn first_wallets(wallets: &Vec<String>, size: usize) -> (r: Vec<String>)
    requires
        size <= wallets@.len(),
    ensures
        r@ == wallets@.take(size as int),
{
    let mut r: Vec<String> = Vec::new();
    let mut i: usize = 0;
    while i < size
        invariant
            i <= size <= wallets@.len(),
            r@ == wallets@.take(i as int),
        decreases size - i,
    {
        r.push(wallets[i].clone());
        assert(r@ =~= wallets@.take(i + 1));
        i = i + 1;
    }
    r
}

/// Switches the filter back and forth.
#[derive(Debug, Clone, Copy, PartialEq, Eq, Structural)]
pub struct Churn {
    pub iterations: u32,
    /// How often there was no room for a request.
    pub send_full: u32,
}

impl Churn {
    pub fn new() -> (c: Churn)
        ensures
            c == (Churn { iterations: 0, send_full: 0 }),
    {
        Churn { iterations: 0, send_full: 0 }
    }

    /// The size of the next filter, in turn a small and a large one.
    pub open spec fn size(self, wallets: int) -> int {
        smaller(
            if self.iterations % 2 == 0 {
                200
            } else {
                5000
            },
            wallets,
        )
    }

    /// The size of the next filter, until the time is up.
    pub open spec fn is_next(self, elapsed_ms: u64, wallets: int, r: Option<usize>) -> bool {
        match r {
            Some(n) => elapsed_ms < CHURN_MS && n == self.size(wallets),
            None => elapsed_ms >= CHURN_MS,
        }
    }

    /// What sending a request leaves of the counts.
    pub open spec fn after_sent(self, sent: TrySend) -> Churn {
        match sent {
            TrySend::Closed => self,
            TrySend::Full => Churn {
                iterations: (self.iterations + 1) as u32,
                send_full: (self.send_full + 1) as u32,
            },
            TrySend::Sent => Churn { iterations: (self.iterations + 1) as u32, ..self },
        }
    }

    /// The counts can be counted on.
    pub open spec fn has_room(self) -> bool {
        self.iterations < u32::MAX && self.send_full < u32::MAX
    }

    /// The size of the next filter, in turn a small and a large one, until the time is up.
    pub fn next_size(&self, elapsed_ms: u64, wallets: usize) -> (r: Option<usize>)
        ensures
            self.is_next(elapsed_ms, wallets as int, r),
    {
        if elapsed_ms >= CHURN_MS {
            return None;
        }
        let target: usize = if self.iterations % 2 == 0 {
            200
        } else {
            5000
        };
        Some(
            if target < wallets {
                target
            } else {
                wallets
            },
        )
    }

    /// Takes what came of sending a request, and says whether to go on.
    pub fn on_sent(&mut self, sent: TrySend) -> (r: bool)
        requires
            old(self).has_room(),
        ensures
            r == (sent != TrySend::Closed),
            *final(self) == old(self).after_sent(sent),
    {
        match sent {
            TrySend::Closed => false,
            TrySend::Full => {
                self.send_full = self.send_full + 1;
                self.iterations = self.iterations + 1;
                true
            },
            TrySend::Sent => {
                self.iterations = self.iterations + 1;
                true
            },
        }
    }
}

/// What the test does now.
#[derive(Debug, Clone, Copy, PartialEq, Eq, Structural)]
pub enum ShadowStep {
    /// Looks on with the first filter.
    Baseline,
    /// Sends a filter of this size; where there is no room, it waits for some.
    Grow { size: usize },
    /// Looks on with a filter of this size.
    Grown { size: usize },
    /// Sends the first filter again.
    Shrink,
    /// Looks on with the first filter again.
    Shrunk,
    /// Sends a filter of this size, if there is room.
    Churn { size: usize },
    /// Lets some time pass.
    Pause,
    /// Opens a second stream.
    SecondStream,
    /// Lets go of the stream, and reports.
    WrapUp,
}

/// What came of it.
#[derive(Debug, Clone, Copy, PartialEq, Eq, Structural)]
pub enum ShadowEvent {
    /// The time is over; what had come out of the stream when it began and when it ended.
    Seen { before: Counters, after: Counters },
    /// What came of sending a filter.
    Sent(TrySend),
    /// The time is over, so many milliseconds after the filter was first switched.
    Waited { elapsed_ms: u64 },
    /// It is done.
    Done,
}

/// How many wallets the filter holds that a step sends: over the stream where it changes the filter,
/// and at the beginning of a stream where it opens one.
pub open spec fn filter_size(step: ShadowStep) -> Option<usize> {
    match step {
        ShadowStep::Baseline => Some(INITIAL_WALLETS),
        ShadowStep::Grow { size } => Some(size),
        ShadowStep::Shrink => Some(INITIAL_WALLETS),
        ShadowStep::Churn { size } => Some(size),
        ShadowStep::SecondStream => Some(INITIAL_WALLETS),
        _ => None,
    }
}

/// How many seconds a step takes, where it takes a fixed time.
pub open spec fn step_secs(step: ShadowStep) -> u64 {
    match step {
        ShadowStep::Baseline => 30,
        ShadowStep::Grown { .. } => 15,
        ShadowStep::Shrunk => 15,
        ShadowStep::Pause => 5,
        _ => 0,
    }
}

/// The filter that a step sends, if it sends one: the first wallets of the list.
pub open spec fn is_filter(
    step: ShadowStep,
    wallets: Seq<String>,
    r: Option<Vec<String>>,
) -> bool {
    match r {
        Some(filter) => {
            &&& filter_size(step) is Some
            &&& filter@ == wallets.take(filter_size(step)->0 as int)
        },
        None => filter_size(step) is None,
    }
}

/// What has come out of the stream as a step begins.
pub open spec fn after_begin(step: ShadowStep, c: Counters) -> Counters {
    if step is Grown {
        after_swap(c)
    } else {
        c
    }
}

/// The test as a whole.
#[derive(Debug, Clone, Copy, PartialEq, Eq, Structural)]
pub struct ShadowRun {
    pub plan: GrowPlan,
    pub churn: Churn,
    pub step: ShadowStep,
}

/// The event can come of the step.
pub open spec fn comes_of(step: ShadowStep, event: ShadowEvent) -> bool {
    match (step, event) {
        (ShadowStep::Baseline, ShadowEvent::Seen { .. }) => true,
        (ShadowStep::Grow { .. }, ShadowEvent::Sent(_)) => true,
        (ShadowStep::Grown { .. }, ShadowEvent::Seen { .. }) => true,
        (ShadowStep::Shrink, ShadowEvent::Done) => true,
        (ShadowStep::Shrunk, ShadowEvent::Seen { .. }) => true,
        (ShadowStep::Churn { .. }, ShadowEvent::Sent(_)) => true,
        (ShadowStep::Pause, ShadowEvent::Waited { .. }) => true,
        (ShadowStep::SecondStream, ShadowEvent::Done) => true,
        _ => false,
    }
}

/// How far the test has come: its parts in their order.
pub open spec fn part(step: ShadowStep) -> int {
    match step {
        ShadowStep::Baseline => 1,
        ShadowStep::Grow { .. } => 2,
        ShadowStep::Grown { .. } => 2,
        ShadowStep::Shrink => 3,
        ShadowStep::Shrunk => 3,
        ShadowStep::Churn { .. } => 4,
        ShadowStep::Pause => 4,
        ShadowStep::SecondStream => 5,
        ShadowStep::WrapUp => 6,
    }
}

impl ShadowRun {
    /// Its plan is in order, and it sends no more wallets than there are.
    pub open spec fn wf(self) -> bool {
        &&& self.plan.wf()
        &&& filter_size(self.step) is Some ==> filter_size(self.step)->0 <= self.plan.wallets
    }

    /// `next` goes on growing the filter, or goes on to shrink it where it is grown.
    pub open spec fn goes_on_growing(self, next: ShadowRun) -> bool {
        &&& next.churn == self.churn
        &&& match next.step {
            ShadowStep::Grow { size } => self.plan.grows_to(next.plan, Some(size)),
            ShadowStep::Shrink => self.plan.grows_to(next.plan, None),
            _ => false,
        }
    }

    /// `next` goes on switching the filter.
    pub open spec fn goes_on_switching(self, next: ShadowRun) -> bool {
        next == (ShadowRun {
            step: ShadowStep::Churn { size: self.churn.size(self.plan.wallets as int) as usize },
            ..self
        })
    }

    /// `next` is where the test stands after an event. Growing ends where the stream is gone or has
    /// failed meanwhile; switching ends where the stream is gone or the time is up.
    pub open spec fn leads_to(self, event: ShadowEvent, next: ShadowRun) -> bool {
        match (self.step, event) {
            (ShadowStep::Baseline, ShadowEvent::Seen { .. }) => self.goes_on_growing(next),
            (ShadowStep::Grow { size }, ShadowEvent::Sent(sent)) => next == (ShadowRun {
                step: if sent == TrySend::Closed {
                    ShadowStep::Shrink
                } else {
                    ShadowStep::Grown { size }
                },
                ..self
            }),
            (ShadowStep::Grown { .. }, ShadowEvent::Seen { before, after }) => if after.errors
                > before.errors {
                next == (ShadowRun { step: ShadowStep::Shrink, ..self })
            } else {
                self.goes_on_growing(next)
            },
            (ShadowStep::Shrink, ShadowEvent::Done) => next == (ShadowRun {
                step: ShadowStep::Shrunk,
                ..self
            }),
            (ShadowStep::Shrunk, ShadowEvent::Seen { .. }) => self.goes_on_switching(next),
            (ShadowStep::Churn { .. }, ShadowEvent::Sent(sent)) => next == (ShadowRun {
                churn: self.churn.after_sent(sent),
                step: if sent == TrySend::Closed {
                    ShadowStep::SecondStream
                } else {
                    ShadowStep::Pause
                },
                ..self
            }),
            (ShadowStep::Pause, ShadowEvent::Waited { elapsed_ms }) => if elapsed_ms < CHURN_MS {
                self.goes_on_switching(next)
            } else {
                next == (ShadowRun { step: ShadowStep::SecondStream, ..self })
            },
            (ShadowStep::SecondStream, ShadowEvent::Done) => next == (ShadowRun {
                step: ShadowStep::WrapUp,
                ..self
            }),
            _ => false,
        }
    }

    /// The test before its first part.
    pub fn new(plan: GrowPlan) -> (r: ShadowRun)
        ensures
            r == (ShadowRun {
                plan,
                churn: Churn { iterations: 0, send_full: 0 },
                step: ShadowStep::Baseline,
            }),
            plan.wf() ==> r.wf(),
    {
        ShadowRun { plan, churn: Churn::new(), step: ShadowStep::Baseline }
    }

    /// How many seconds the step takes, where it takes a fixed time.
    pub fn secs(&self) -> (r: u64)
        ensures
            r == step_secs(self.step),
    {
        match self.step {
            ShadowStep::Baseline => 30,
            ShadowStep::Grown { .. } => 15,
            ShadowStep::Shrunk => 15,
            ShadowStep::Pause => 5,
            _ => 0,
        }
    }

    /// The filter that the step sends, if it sends one: the first wallets of the list.
    pub fn filter(&self, wallets: &Vec<String>) -> (r: Option<Vec<String>>)
        requires
            self.wf(),
            wallets@.len() == self.plan.wallets,
        ensures
            is_filter(self.step, wallets@, r),
    {
        match self.step {
            ShadowStep::Baseline => Some(first_wallets(wallets, INITIAL_WALLETS)),
            ShadowStep::Grow { size } => Some(first_wallets(wallets, size)),
            ShadowStep::Shrink => Some(first_wallets(wallets, INITIAL_WALLETS)),
            ShadowStep::Churn { size } => Some(first_wallets(wallets, size)),
            ShadowStep::SecondStream => Some(first_wallets(wallets, INITIAL_WALLETS)),
            _ => None,
        }
    }

    /// Begins the step: before it looks on with a grown filter, it forgets when an account update came
    /// for the one before.
    pub fn begin(&self, counters: &mut Counters)
        ensures
            *final(counters) == after_begin(self.step, *old(counters)),
    {
        if let ShadowStep::Grown { .. } = self.step {
            counters.on_swap();
        }
    }

    fn grow(&mut self)
        requires
            old(self).wf(),
        ensures
            final(self).wf(),
            old(self).goes_on_growing(*final(self)),
    {
        self.step = match self.plan.next_size() {
            Some(size) => ShadowStep::Grow { size },
            None => ShadowStep::Shrink,
        };
    }

    fn switch(&mut self, elapsed_ms: u64)
        requires
            old(self).wf(),
        ensures
            final(self).wf(),
            elapsed_ms < CHURN_MS ==> old(self).goes_on_switching(*final(self)),
            elapsed_ms >= CHURN_MS ==> *final(self) == (ShadowRun {
                step: ShadowStep::SecondStream,
                ..*old(self)
            }),
    {
        self.step = match self.churn.next_size(elapsed_ms, self.plan.wallets) {
            Some(size) => ShadowStep::Churn { size },
            None => ShadowStep::SecondStream,
        };
    }

    /// Takes what came of the current step, and goes on to the next.
    pub fn on_event(&mut self, event: ShadowEvent) -> (step: ShadowStep)
        requires
            old(self).wf(),
            old(self).churn.has_room(),
            comes_of(old(self).step, event),
        ensures
            final(self).wf(),
            old(self).leads_to(event, *final(self)),
            step == final(self).step,
    {
        match (self.step, event) {
            (ShadowStep::Baseline, ShadowEvent::Seen { .. }) => self.grow(),
            (ShadowStep::Grow { size }, ShadowEvent::Sent(sent)) => {
                self.step = if sent == TrySend::Closed {
                    ShadowStep::Shrink
                } else {
                    ShadowStep::Grown { size }
                };
            },
            (ShadowStep::Grown { .. }, ShadowEvent::Seen { before, after }) => {
                if after.errors > before.errors {
                    self.step = ShadowStep::Shrink;
                } else {
                    self.grow();
                }
            },
            (ShadowStep::Shrink, ShadowEvent::Done) => {
                self.step = ShadowStep::Shrunk;
            },
            (ShadowStep::Shrunk, ShadowEvent::Seen { .. }) => self.switch(0),
            (ShadowStep::Churn { .. }, ShadowEvent::Sent(sent)) => {
                self.step = if self.churn.on_sent(sent) {
                    ShadowStep::Pause
                } else {
                    ShadowStep::SecondStream
                };
            },
            (ShadowStep::Pause, ShadowEvent::Waited { elapsed_ms }) => self.switch(elapsed_ms),
            (ShadowStep::SecondStream, ShadowEvent::Done) => {
                self.step = ShadowStep::WrapUp;
            },
            _ => {},
        }
        self.step
    }
}

/// The parts of the test follow one another: none is left out but the growing, where there is nothing
/// to grow to, and none comes twice.
pub proof fn law_parts_follow_one_another(run: ShadowRun, event: ShadowEvent, next: ShadowRun)
    requires
        run.leads_to(event, next),
    ensures
        part(run.step) <= part(next.step) <= part(run.step) + 2,
        part(next.step) == part(run.step) + 2 ==> run.step == ShadowStep::Baseline
            && next.step == ShadowStep::Shrink,
{
}

/// An update counts once, in the counter of its kind and in no other; a slot is remembered, and of the
/// account updates since the filter was changed the time of the first.
pub proof fn law_update_counts_in_its_counter(c: Counters, update: SubscribeUpdate, now: u128)
    requires
        c.has_room(),
    ensures
        ({
            let after = counted(c, update, now);
            let one = |is_it: bool| if is_it { 1int } else { 0 };
            let is_account = update.update_oneof matches Some(UpdateOneof::Account);
            let is_slot = update.update_oneof matches Some(UpdateOneof::Slot { .. });
            let is_meta = update.update_oneof matches Some(UpdateOneof::BlockMeta { .. });
            let is_ping = update.update_oneof matches Some(UpdateOneof::Ping);
            let is_pong = update.update_oneof matches Some(UpdateOneof::Pong { .. });
            let known = is_account || is_slot || is_meta || is_ping || is_pong;
            &&& after.accounts == c.accounts + one(is_account)
            &&& after.slots == c.slots + one(is_slot)
            &&& after.blocks_meta == c.blocks_meta + one(is_meta)
            &&& after.pings == c.pings + one(is_ping)
            &&& after.pongs == c.pongs + one(is_pong)
            &&& after.other == c.other + one(!known)
            &&& after.errors == c.errors
            &&& update.update_oneof matches Some(UpdateOneof::Slot { slot, .. }) ==> after.last_slot
                == slot
            &&& !is_slot ==> after.last_slot == c.last_slot
            &&& is_account && c.first_account_after_swap_at is None
                ==> after.first_account_after_swap_at == Some(now)
            &&& !is_account || c.first_account_after_swap_at is Some
                ==> after.first_account_after_swap_at == c.first_account_after_swap_at
        }),
{
}

/// An error counts once and changes nothing else; a changed filter forgets the first account update and
/// nothing else, and only looking on with a grown filter begins so.
pub proof fn law_swap_forgets_only_the_first_account(c: Counters, step: ShadowStep)
    requires
        c.has_room(),
    ensures
        after_error(c).errors == c.errors + 1,
        (Counters { errors: c.errors, ..after_error(c) }) == c,
        after_swap(c).first_account_after_swap_at is None,
        (Counters {
            first_account_after_swap_at: c.first_account_after_swap_at,
            ..after_swap(c)
        }) == c,
        step is Grown ==> after_begin(step, c).first_account_after_swap_at is None
            && after_begin(step, c).accounts == c.accounts,
        !(step is Grown) ==> after_begin(step, c) == c,
{
}

/// The latency of a change is the time from when it was sent to the first account update, nothing where
/// that came earlier, and unknown where none came.
pub proof fn law_latency_runs_from_the_sending(first: Option<u128>, sent_at: u128)
    ensures
        latency(first, sent_at) is Some <==> first is Some,
        first is Some && first->0 >= sent_at ==> latency(first, sent_at)->0 == first->0 - sent_at,
        first is Some && first->0 < sent_at ==> latency(first, sent_at)->0 == 0,
{
}

/// A line about what came in between tells each difference behind its own name, and the last slot.
pub proof fn law_line_tells_each_difference(label: Seq<char>, before: Counters, after: Counters)
    requires
        at_most(before, after),
    ensures
        tells(delta_text(label, before, after), ": Δaccounts="@, after.accounts - before.accounts),
        tells(delta_text(label, before, after), " Δslots="@, after.slots - before.slots),
        tells(
            delta_text(label, before, after),
            " Δblocks_meta="@,
            after.blocks_meta - before.blocks_meta,
        ),
        tells(delta_text(label, before, after), " Δpings="@, after.pings - before.pings),
        tells(delta_text(label, before, after), " Δpongs="@, after.pongs - before.pongs),
        tells(delta_text(label, before, after), " Δerrors="@, after.errors - before.errors),
        tells(delta_text(label, before, after), " last_slot="@, after.last_slot as int),
{
    let t = "- "@ + label;
    let t = lemma_one_more(t, ": Δaccounts="@, after.accounts - before.accounts);
    let t = lemma_one_more(t, " Δslots="@, after.slots - before.slots);
    let t = lemma_one_more(t, " Δblocks_meta="@, after.blocks_meta - before.blocks_meta);
    let t = lemma_one_more(t, " Δpings="@, after.pings - before.pings);
    let t = lemma_one_more(t, " Δpongs="@, after.pongs - before.pongs);
    let t = lemma_one_more(t, " Δerrors="@, after.errors - before.errors);
    let t = lemma_one_more(t, " last_slot="@, after.last_slot as int);
}

/// With one more number at its end, a text tells that and all that it told.
proof fn lemma_one_more(t: Seq<char>, name: Seq<char>, n: int) -> (longer: Seq<char>)
    ensures
        longer == t + name + text::decimal(n as nat),
        tells(longer, name, n),
        forall|other: Seq<char>, m: int|
            tells(t, other, m) ==> #[trigger] tells(t + name + text::decimal(n as nat), other, m),
{
    let d = text::decimal(n as nat);
    let longer = t + name + d;
    assert(longer =~= t + (name + d) + Seq::<char>::empty());
    assert forall|other: Seq<char>, m: int| tells(t, other, m) implies #[trigger] tells(
        t + name + text::decimal(n as nat),
        other,
        m,
    ) by {
        let item = other + text::decimal(m as nat);
        let (pre, post) = choose|pre: Seq<char>, post: Seq<char>|
            t == #[trigger] (pre + (other + text::decimal(m as nat)) + post);
        assert(longer =~= pre + item + (post + name + d));
    }
    longer
}

/// A number stands in a text right behind a name.
pub open spec fn tells(t: Seq<char>, name: Seq<char>, n: int) -> bool {
    exists|pre: Seq<char>, post: Seq<char>|
        t == #[trigger] (pre + (name + text::decimal(n as nat)) + post)
}

/// The test asks for the accounts that it is given, for slots as they come and for block metadata, and for
/// nothing else, all as soon as it is processed.
pub proof fn law_request_asks_for_the_accounts(r: SubscribeRequest, account_pubkeys: Seq<String>)
    requires
        is_shadow_request(r, account_pubkeys),
    ensures
        r.accounts.entries@.len() == 1,
        r.accounts.entries@[0].1.account@ == account_pubkeys,
        r.slots.entries@.len() == 1,
        r.slots.entries@[0].1.filter_by_commitment is None,
        r.slots.entries@[0].1.interslot_updates == Some(false),
        r.blocks_meta@.len() == 1,
        r.transactions.entries@.len() == 0,
        r.transactions_status@.len() == 0,
        r.blocks@.len() == 0,
        r.entry@.len() == 0,
        r.commitment == Some(0i32),
        r.ping is None,
{
    assert(text::views(r.blocks_meta@).len() == r.blocks_meta@.len());
}

/// A request takes two bytes more than its text for each account, and a kilobyte has as many bytes as two
/// multiplied by itself ten times.
pub proof fn law_request_grows_with_each_account(
    account_pubkeys: Seq<String>,
    more: String,
    bytes: nat,
)
    ensures
        kilobytes(bytes) * 1024 <= bytes < kilobytes(bytes) * 1024 + 1024,
        request_bytes(Seq::empty()) == 0,
        request_bytes(account_pubkeys.push(more)) == request_bytes(account_pubkeys)
            + vstd::utf8::encode_utf8(more@).len() + 2,
{
    assert(account_pubkeys.push(more).drop_last() =~= account_pubkeys);
}

/// A test needs a hundred wallets; it begins with the first fifty of those that were read. A list that
/// could not be read is refused with the error.
pub proof fn law_test_needs_a_hundred_wallets(
    parsed: Result<Seq<Seq<char>>, Seq<char>>,
    r: Result<(Vec<String>, GrowPlan), String>,
    wallets: usize,
    plan: Result<GrowPlan, String>,
)
    requires
        is_start(parsed, r),
        GrowPlan::is_first(wallets, plan),
    ensures
        r is Ok <==> parsed is Ok && parsed->Ok_0.len() >= 100,
        r matches Ok((list, p)) ==> {
            &&& text::views(list@) == parsed->Ok_0
            &&& p.wallets == list@.len()
            &&& p.union_len == 50
            &&& p.at == 0
        },
        parsed is Err ==> r->Err_0@ == parsed->Err_0,
        plan is Ok <==> wallets >= 100,
        plan matches Ok(p) ==> p.wallets == wallets && p.union_len == 50 && p.at == 0,
{
    if let Ok((list, p)) = r {
        assert(text::views(list@).len() == list@.len());
        assert(list@.len() == list.len());
    }
}

/// The filter is grown to the next of its sizes, or to all wallets where they are fewer: to no size that
/// it has reached, and past none that it has not.
pub proof fn law_next_size_is_the_next_beyond(
    plan: GrowPlan,
    next: GrowPlan,
    size: Option<usize>,
    full: int,
)
    requires
        plan.wf(),
        next.wf(),
        plan.grows_to(next, size),
        full == 200 || full == 1000 || full == 5000 || full == 10000 || full == 20000 || full
            == 25000,
    ensures
        size matches Some(n) ==> {
            &&& n > plan.union_len
            &&& n == plan.wallets || n == 200 || n == 1000 || n == 5000 || n == 10000 || n == 20000
                || n == 25000
            &&& n <= plan.wallets
            &&& full > plan.union_len ==> n <= full
            &&& next.union_len == n
        },
        size is None ==> {
            &&& next.union_len == plan.union_len
            &&& plan.union_len == plan.wallets || plan.union_len == 25000
        },
        next.wallets == plan.wallets,
{
    let w = plan.wallets as int;
    assert(grow_target(0, w) <= 200 && grow_target(1, w) <= 1000 && grow_target(2, w) <= 5000);
    assert(grow_target(3, w) <= 10000 && grow_target(4, w) <= 20000 && grow_target(5, w) <= 25000);
    if let Some(n) = size {
        let k = if full == 200 {
            0int
        } else if full == 1000 {
            1
        } else if full == 5000 {
            2
        } else if full == 10000 {
            3
        } else if full == 20000 {
            4
        } else {
            5
        };
        assert(grow_target(k, w) == smaller(full, w));
        if full > plan.union_len && w > plan.union_len {
            assert(k >= next.at - 1);
        }
    }
}

/// For a minute the filter is switched between two hundred and five thousand wallets, or all where they
/// are fewer, the small one first; what finds no room counts as switched, and is counted apart; a stream
/// that is gone counts as nothing.
pub proof fn law_filter_is_switched_for_a_minute(
    c: Churn,
    elapsed_ms: u64,
    wallets: int,
    r: Option<usize>,
    sent: TrySend,
)
    requires
        c.is_next(elapsed_ms, wallets, r),
        c.has_room(),
    ensures
        r is Some <==> elapsed_ms < 60000,
        r is Some && c.iterations % 2 == 0 ==> r->0 == smaller(200, wallets),
        r is Some && c.iterations % 2 == 1 ==> r->0 == smaller(5000, wallets),
        smaller(200, wallets) <= wallets && (wallets >= 200 ==> smaller(200, wallets) == 200),
        sent == TrySend::Closed ==> c.after_sent(sent) == c,
        sent != TrySend::Closed ==> c.after_sent(sent).iterations == c.iterations + 1,
        sent == TrySend::Full ==> c.after_sent(sent).send_full == c.send_full + 1,
        sent == TrySend::Sent ==> c.after_sent(sent).send_full == c.send_full,
{
}

/// What a step sends are the first wallets, as many as it says, and fifty where it goes back to the first
/// filter or opens a stream; a step that looks on or waits sends nothing and takes its time, half a minute
/// at first, then a quarter of one, and five seconds between two switches.
pub proof fn law_steps_send_or_take_their_time(
    step: ShadowStep,
    wallets: Seq<String>,
    r: Option<Vec<String>>,
)
    requires
        is_filter(step, wallets, r),
    ensures
        match step {
            ShadowStep::Baseline => r is Some && r->0@ == wallets.take(50) && step_secs(step) == 30,
            ShadowStep::Grow { size } => r is Some && r->0@ == wallets.take(size as int)
                && step_secs(step) == 0,
            ShadowStep::Grown { .. } => r is None && step_secs(step) == 15,
            ShadowStep::Shrink => r is Some && r->0@ == wallets.take(50) && step_secs(step) == 0,
            ShadowStep::Shrunk => r is None && step_secs(step) == 15,
            ShadowStep::Churn { size } => r is Some && r->0@ == wallets.take(size as int)
                && step_secs(step) == 0,
            ShadowStep::Pause => r is None && step_secs(step) == 5,
            ShadowStep::SecondStream => r is Some && r->0@ == wallets.take(50) && step_secs(step)
                == 0,
            ShadowStep::WrapUp => r is None && step_secs(step) == 0,
        },
{
}

/// Growing ends where the stream is gone, where it failed while it was looked on, or where no size is
/// left; switching ends where the stream is gone or a minute is over; and after it a second stream is
/// opened before the test is over.
pub proof fn law_what_ends_a_part(run: ShadowRun, event: ShadowEvent, next: ShadowRun)
    requires
        run.wf(),
        next.wf(),
        run.leads_to(event, next),
    ensures
        run.step is Baseline ==> (next.step is Shrink <==> run.plan.union_len == run.plan.wallets
            || run.plan.union_len == 25000),
        run.step is Baseline && !(next.step is Shrink) ==> next.step is Grow,
        run.step is Grow ==> (next.step is Shrink <==> event == ShadowEvent::Sent(TrySend::Closed)),
        run.step is Grow && !(next.step is Shrink) ==> next.step is Grown && next.step->Grown_size
            == run.step->Grow_size,
        run.step is Grown ==> (next.step is Shrink <==> event->after.errors
            > event->before.errors || run.plan.union_len == run.plan.wallets || run.plan.union_len
            == 25000),
        run.step is Grown && !(next.step is Shrink) ==> next.step is Grow,
        run.step is Shrink ==> next.step is Shrunk,
        run.step is Shrunk ==> next.step is Churn,
        run.step is Churn ==> (next.step is SecondStream <==> event == ShadowEvent::Sent(
            TrySend::Closed,
        )),
        run.step is Churn && !(next.step is SecondStream) ==> next.step is Pause,
        run.step is Pause ==> (next.step is SecondStream <==> event->elapsed_ms >= 60000),
        run.step is Pause && !(next.step is SecondStream) ==> next.step is Churn,
        run.step is SecondStream ==> next.step is WrapUp,
        next.step matches ShadowStep::Churn { size } ==> size == run.churn.size(
            run.plan.wallets as int,
        ),
        next.plan.wallets == run.plan.wallets,
        !(run.step is Churn) ==> next.churn == run.churn,
        run.step is Churn ==> next.churn == run.churn.after_sent(event->Sent_0),
{
    if next.step is Shrink && run.goes_on_growing(next) {
        law_growth_reaches_all(run.plan, next.plan, None);
    }
    if let ShadowStep::Grow { size } = next.step {
        if run.plan.grows_to(next.plan, Some(size)) {
            law_growth_reaches_all(run.plan, next.plan, Some(size));
        }
    }
}

} // verus!
