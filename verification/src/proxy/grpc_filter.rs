//! A client's filters, prepared for matching updates against them.

use crate::codec;
use crate::names;
use crate::names::NameMap;
use crate::proxy::geyser::{
    SubscribeRequest, SubscribeUpdate, TransactionInfo, TransactionsFilter, UpdateOneof,
};
use crate::text;
use vstd::prelude::*;

verus! {

/// A set of keys, as raw bytes. No key occurs twice.
#[derive(Debug)]
pub struct KeySet {
    pub items: Vec<Vec<u8>>,
}

/// The bytes of each key.
pub open spec fn key_views(keys: Seq<Vec<u8>>) -> Seq<Seq<u8>> {
    keys.map_values(|k: Vec<u8>| k@)
}

impl View for KeySet {
    type V = Set<Seq<u8>>;

    open spec fn view(&self) -> Set<Seq<u8>> {
        key_views(self.items@).to_set()
    }
}

impl KeySet {
    /// No key occurs twice.
    pub open spec fn wf(self) -> bool {
        key_views(self.items@).no_duplicates()
    }

    /// The empty set.
    pub fn new() -> (s: KeySet)
        ensures
            s.wf(),
            s@ == Set::<Seq<u8>>::empty(),
    {
        let s = KeySet { items: Vec::new() };
        assert(s@ =~= Set::<Seq<u8>>::empty());
        s
    }

    /// Whether a key is in the set.
    pub fn contains(&self, key: &Vec<u8>) -> (r: bool)
        ensures
            r == self@.contains(key@),
    {
        let mut i: usize = 0;
        while i < self.items.len()
            invariant
                i <= self.items@.len(),
                forall|j: int| 0 <= j < i ==> #[trigger] key_views(self.items@)[j] != key@,
            decreases self.items@.len() - i,
        {
            if text::bytes_eq(self.items[i].as_slice(), key.as_slice()) {
                assert(key_views(self.items@)[i as int] == key@);
                return true;
            }
            i = i + 1;
        }
        assert(!key_views(self.items@).contains(key@));
        false
    }

    /// Puts a key in.
    pub fn insert(&mut self, key: Vec<u8>)
        requires
            old(self).wf(),
        ensures
            final(self).wf(),
            final(self)@ == old(self)@.insert(key@),
    {
        let ghost before = key_views(self.items@);
        let ghost k = key@;
        if self.contains(&key) {
            assert(self@ =~= self@.insert(k));
        } else {
            self.items.push(key);
            assert(key_views(self.items@) =~= before.push(k));
            proof {
                before.lemma_push_to_set_commute(k);
            }
        }
    }

    /// Whether the set is empty.
    pub fn is_empty(&self) -> (r: bool)
        ensures
            r == (self@ == Set::<Seq<u8>>::empty()),
    {
        proof {
            if self.items@.len() > 0 {
                assert(key_views(self.items@)[0] == self.items@[0]@);
                assert(self@.contains(self.items@[0]@));
            } else {
                assert(self@ =~= Set::<Seq<u8>>::empty());
            }
        }
        self.items.len() == 0
    }
}

/// A filter on transactions, with keys as raw bytes.
#[derive(Debug)]
pub struct CompiledTxFilter {
    pub vote: Option<bool>,
    pub failed: Option<bool>,
    pub signature: Option<Vec<u8>>,
    pub account_include: KeySet,
    pub account_exclude: KeySet,
    pub account_required: KeySet,
}

/// A filter on slots.
#[derive(Debug, Clone, Copy)]
pub struct CompiledSlotFilter {
    pub filter_by_commitment: Option<bool>,
}

/// Pre-compiled filters from a client's SubscribeRequest.
/// Account keys are stored as raw bytes for fast comparison against
/// the bytes of an update (avoiding repeated base58 encode/decode).
pub struct CompiledFilters {
    pub transactions: NameMap<CompiledTxFilter>,
    pub slots: NameMap<CompiledSlotFilter>,
    pub blocks_meta: Vec<String>,
    pub entry: Vec<String>,
    // Types that require direct upstream connection (not served by mux)
    pub has_accounts: bool,
    pub has_blocks: bool,
    pub has_transactions_status: bool,
}

/// The keys that decode, of a list of which some may not.
pub open spec fn decoded_set(decoded: Seq<Option<Seq<u8>>>) -> Set<Seq<u8>> {
    Set::new(|k: Seq<u8>| decoded.contains(Some(k)))
}

/// What base58 makes of each text.
pub open spec fn decode_all(keys: Seq<String>) -> Seq<Option<Seq<u8>>> {
    keys.map_values(|s: String| codec::base58(s@))
}

/// `c` is what a filter on transactions comes to; what does not decode is left out, a signature
/// too.
pub open spec fn is_compiled(c: CompiledTxFilter, f: TransactionsFilter) -> bool {
    &&& c.vote == f.vote
    &&& c.failed == f.failed
    &&& codec::opt_bytes(c.signature) == match f.signature {
        Some(s) => codec::base58(s@),
        None => None,
    }
    &&& c.account_include@ == decoded_set(decode_all(f.account_include@))
    &&& c.account_exclude@ == decoded_set(decode_all(f.account_exclude@))
    &&& c.account_required@ == decoded_set(decode_all(f.account_required@))
}

/// `c` is what a request comes to.
pub open spec fn is_compiled_request(c: CompiledFilters, req: SubscribeRequest) -> bool {
    &&& c.transactions.names() == req.transactions.names()
    &&& forall|i: int|
        0 <= i < req.transactions.entries@.len() ==> is_compiled(
            (#[trigger] c.transactions.entries@[i]).1,
            req.transactions.entries@[i].1,
        )
    &&& c.slots.names() == req.slots.names()
    &&& forall|i: int|
        0 <= i < req.slots.entries@.len() ==> (#[trigger] c.slots.entries@[i]).1.filter_by_commitment
            == req.slots.entries@[i].1.filter_by_commitment
    &&& c.blocks_meta@ == req.blocks_meta@
    &&& c.entry@ == req.entry@
    &&& c.has_accounts == (req.accounts.entries@.len() > 0)
    &&& c.has_blocks == (req.blocks@.len() > 0)
    &&& c.has_transactions_status == (req.transactions_status@.len() > 0)
}

/// The keys of the message of a transaction.
pub open spec fn message_keys(info: TransactionInfo) -> Seq<Seq<u8>> {
    match info.transaction {
        Some(tx) => match tx.message {
            Some(m) => key_views(m.account_keys@),
            None => Seq::empty(),
        },
        None => Seq::empty(),
    }
}

/// All accounts of a transaction: those of its message, then those that were loaded.
pub open spec fn tx_keys(info: TransactionInfo) -> Seq<Seq<u8>> {
    message_keys(info) + match info.meta {
        Some(m) => key_views(m.loaded_writable_addresses@) + key_views(
            m.loaded_readonly_addresses@,
        ),
        None => Seq::empty(),
    }
}

/// Whether a transaction is known to have failed.
pub open spec fn tx_failed(info: TransactionInfo) -> bool {
    info.meta is Some && info.meta->0.failed
}

/// Whether a filter lets a transaction pass that touches these accounts.
pub open spec fn passes_with(
    f: CompiledTxFilter,
    info: TransactionInfo,
    keys: Seq<Seq<u8>>,
) -> bool {
    &&& f.vote is Some ==> f.vote->0 == info.is_vote
    &&& f.failed is Some ==> f.failed->0 == tx_failed(info)
    &&& f.signature is Some ==> f.signature->0@ == info.signature@
    &&& f.account_include@ != Set::<Seq<u8>>::empty() ==> exists|k: Seq<u8>| #[trigger]
        keys.contains(k) && f.account_include@.contains(k)
    &&& forall|k: Seq<u8>| #[trigger] keys.contains(k) ==> !f.account_exclude@.contains(k)
    &&& forall|k: Seq<u8>| #[trigger] f.account_required@.contains(k) ==> keys.contains(k)
}

/// Whether a filter lets a transaction pass.
pub open spec fn tx_passes(f: CompiledTxFilter, info: TransactionInfo) -> bool {
    passes_with(f, info, tx_keys(info))
}

/// The names of the filters that let a transaction pass, in order.
pub open spec fn passing_names(
    entries: Seq<(String, CompiledTxFilter)>,
    info: TransactionInfo,
) -> Seq<Seq<char>>
    decreases entries.len(),
{
    if entries.len() == 0 {
        Seq::empty()
    } else {
        let before = passing_names(entries.drop_last(), info);
        if tx_passes(entries.last().1, info) {
            before.push(entries.last().0@)
        } else {
            before
        }
    }
}

/// Names, or nothing where there are none.
pub open spec fn some_names(names: Seq<Seq<char>>) -> Option<Seq<Seq<char>>> {
    if names.len() == 0 {
        None
    } else {
        Some(names)
    }
}

/// The names of the filters that an update matches; a ping or pong matches without any.
pub open spec fn matching(c: CompiledFilters, update: SubscribeUpdate) -> Option<Seq<Seq<char>>> {
    match update.update_oneof {
        Some(UpdateOneof::Transaction(Some(info))) => some_names(
            passing_names(c.transactions.entries@, info),
        ),
        Some(UpdateOneof::Slot { .. }) => some_names(c.slots.names()),
        Some(UpdateOneof::BlockMeta { .. }) => some_names(text::views(c.blocks_meta@)),
        Some(UpdateOneof::Entry { .. }) => some_names(text::views(c.entry@)),
        Some(UpdateOneof::Ping) => Some(Seq::empty()),
        Some(UpdateOneof::Pong { .. }) => Some(Seq::empty()),
        _ => None,
    }
}

/// The names that an optional list holds.
pub open spec fn opt_views(names: Option<Vec<String>>) -> Option<Seq<Seq<char>>> {
    match names {
        Some(v) => Some(text::views(v@)),
        None => None,
    }
}

/// The set of the keys that decoded.
pub fn collect_keys(decoded: Vec<Option<Vec<u8>>>) -> (s: KeySet)
    ensures
        s.wf(),
        s@ == decoded_set(decoded@.map_values(|d: Option<Vec<u8>>| codec::opt_bytes(d))),
{
    let ghost all = decoded@.map_values(|d: Option<Vec<u8>>| codec::opt_bytes(d));
    let mut s = KeySet::new();
    let mut i: usize = 0;
    assert(s@ =~= decoded_set(all.take(0)));
    while i < decoded.len()
        invariant
            i <= decoded@.len(),
            all == decoded@.map_values(|d: Option<Vec<u8>>| codec::opt_bytes(d)),
            s.wf(),
            s@ == decoded_set(all.take(i as int)),
        decreases decoded@.len() - i,
    {
        let ghost before = all.take(i as int);
        let ghost after = all.take(i + 1);
        let ghost old_set = s@;
        assert(after =~= before.push(all[i as int]));
        match &decoded[i] {
            Some(key) => {
                let copy = copy_bytes(key);
                s.insert(copy);
                assert(all[i as int] == Some(key@));
                assert forall|k: Seq<u8>| s@.contains(k) == decoded_set(after).contains(k) by {
                    if old_set.contains(k) {
                        assert(after[before.index_of(Some(k))] == Some(k));
                    }
                    if k == key@ {
                        assert(after[i as int] == Some(k));
                    }
                    if after.contains(Some(k)) {
                        let p = after.index_of(Some(k));
                        if p < i {
                            assert(before[p] == Some(k));
                        }
                    }
                }
                assert(s@ =~= decoded_set(after));
            },
            None => {
                assert(all[i as int] is None);
                assert forall|k: Seq<u8>| s@.contains(k) == decoded_set(after).contains(k) by {
                    if old_set.contains(k) {
                        assert(after[before.index_of(Some(k))] == Some(k));
                    }
                    if after.contains(Some(k)) {
                        let p = after.index_of(Some(k));
                        assert(before[p] == Some(k));
                    }
                }
                assert(s@ =~= decoded_set(after));
            },
        }
        i = i + 1;
    }
    assert(all.take(i as int) =~= all);
    s
}

/// A copy of bytes.
pub fn copy_bytes(v: &Vec<u8>) -> (r: Vec<u8>)
    ensures
        r@ == v@,
{
    let r = v.clone();
    assert(r@ =~= v@);
    r
}

fn decode_b58_set(keys: &Vec<String>) -> (s: KeySet)
    ensures
        s.wf(),
        s@ == decoded_set(decode_all(keys@)),
{
    let mut decoded: Vec<Option<Vec<u8>>> = Vec::new();
    let mut i: usize = 0;
    while i < keys.len()
        invariant
            i <= keys@.len(),
            decoded@.map_values(|d: Option<Vec<u8>>| codec::opt_bytes(d)) == decode_all(keys@).take(
                i as int,
            ),
        decreases keys@.len() - i,
    {
        let ghost before = decoded@;
        decoded.push(codec::decode_b58(keys[i].as_str()));
        assert(decoded@.map_values(|d: Option<Vec<u8>>| codec::opt_bytes(d))
            =~= before.map_values(|d: Option<Vec<u8>>| codec::opt_bytes(d)).push(
            codec::base58(keys@[i as int]@),
        ));
        i = i + 1;
        assert(decoded@.map_values(|d: Option<Vec<u8>>| codec::opt_bytes(d)) =~= decode_all(
            keys@,
        ).take(i as int));
    }
    assert(decode_all(keys@).take(i as int) =~= decode_all(keys@));
    collect_keys(decoded)
}

fn compile_tx_filter(f: &TransactionsFilter) -> (c: CompiledTxFilter)
    ensures
        is_compiled(c, *f),
{
    CompiledTxFilter {
        vote: f.vote,
        failed: f.failed,
        signature: match &f.signature {
            Some(s) => codec::decode_b58(s.as_str()),
            None => None,
        },
        account_include: decode_b58_set(&f.account_include),
        account_exclude: decode_b58_set(&f.account_exclude),
        account_required: decode_b58_set(&f.account_required),
    }
}

/// Collect all account keys from a transaction (message keys + loaded addresses from meta).
fn collect_tx_account_keys(info: &TransactionInfo) -> (keys: Vec<&Vec<u8>>)
    ensures
        ref_views(keys@) == tx_keys(*info),
{
    let mut keys: Vec<&Vec<u8>> = Vec::new();
    assert(ref_views(keys@) =~= Seq::<Seq<u8>>::empty());
    if let Some(tx) = &info.transaction {
        if let Some(msg) = &tx.message {
            append_refs(&mut keys, &msg.account_keys);
        }
    }
    assert(ref_views(keys@) =~= message_keys(*info));
    if let Some(meta) = &info.meta {
        append_refs(&mut keys, &meta.loaded_writable_addresses);
        append_refs(&mut keys, &meta.loaded_readonly_addresses);
    }
    assert(ref_views(keys@) =~= tx_keys(*info));
    keys
}

/// The bytes of keys that are referred to.
pub open spec fn ref_views(keys: Seq<&Vec<u8>>) -> Seq<Seq<u8>> {
    keys.map_values(|k: &Vec<u8>| k@)
}

fn append_refs<'a>(keys: &mut Vec<&'a Vec<u8>>, more: &'a Vec<Vec<u8>>)
    ensures
        ref_views(final(keys)@) == ref_views(old(keys)@) + key_views(more@),
{
    let ghost start = ref_views(keys@);
    let mut i: usize = 0;
    assert(start + key_views(more@).take(0) =~= start);
    while i < more.len()
        invariant
            i <= more@.len(),
            ref_views(keys@) == start + key_views(more@).take(i as int),
        decreases more@.len() - i,
    {
        let ghost before = keys@;
        keys.push(&more[i]);
        assert(ref_views(keys@) =~= ref_views(before).push(more@[i as int]@));
        i = i + 1;
        assert(ref_views(keys@) =~= start + key_views(more@).take(i as int));
    }
    assert(key_views(more@).take(i as int) =~= key_views(more@));
}

/// Whether some key is in the set.
fn any_in(keys: &Vec<&Vec<u8>>, set: &KeySet) -> (r: bool)
    ensures
        r == exists|k: Seq<u8>| #[trigger] ref_views(keys@).contains(k) && set@.contains(k),
{
    let mut i: usize = 0;
    while i < keys.len()
        invariant
            i <= keys@.len(),
            forall|j: int| 0 <= j < i ==> !set@.contains(#[trigger] ref_views(keys@)[j]),
        decreases keys@.len() - i,
    {
        if set.contains(keys[i]) {
            assert(ref_views(keys@)[i as int] == keys@[i as int]@);
            assert(ref_views(keys@).contains(keys@[i as int]@));
            return true;
        }
        i = i + 1;
    }
    assert forall|k: Seq<u8>| #[trigger] ref_views(keys@).contains(k) implies !set@.contains(k) by {
        let j = ref_views(keys@).index_of(k);
        assert(ref_views(keys@)[j] == k);
    }
    false
}

/// Whether every key of the set is there.
fn all_there(keys: &Vec<&Vec<u8>>, set: &KeySet) -> (r: bool)
    ensures
        r == forall|k: Seq<u8>| #[trigger] set@.contains(k) ==> ref_views(keys@).contains(k),
{
    let mut i: usize = 0;
    while i < set.items.len()
        invariant
            i <= set.items@.len(),
            forall|j: int|
                0 <= j < i ==> ref_views(keys@).contains(#[trigger] key_views(set.items@)[j]),
        decreases set.items@.len() - i,
    {
        let mut found = false;
        let mut k: usize = 0;
        while k < keys.len() && !found
            invariant
                i < set.items@.len(),
                k <= keys@.len(),
                found ==> ref_views(keys@).contains(set.items@[i as int]@),
                !found ==> forall|j: int|
                    0 <= j < k ==> #[trigger] ref_views(keys@)[j] != set.items@[i as int]@,
            decreases keys@.len() - k,
        {
            if text::bytes_eq(keys[k].as_slice(), set.items[i].as_slice()) {
                assert(ref_views(keys@)[k as int] == set.items@[i as int]@);
                found = true;
            }
            k = k + 1;
        }
        if !found {
            assert(key_views(set.items@)[i as int] == set.items@[i as int]@);
            assert(set@.contains(set.items@[i as int]@));
            return false;
        }
        i = i + 1;
    }
    assert forall|k: Seq<u8>| #[trigger] set@.contains(k) implies ref_views(keys@).contains(k) by {
        let j = key_views(set.items@).index_of(k);
        assert(key_views(set.items@)[j] == k);
    }
    true
}

/// Whether a filter lets a transaction pass that touches these accounts.
pub fn matches_tx_filter(
    filter: &CompiledTxFilter,
    info: &TransactionInfo,
    account_keys: &Vec<&Vec<u8>>,
) -> (r: bool)
    ensures
        r == passes_with(*filter, *info, ref_views(account_keys@)),
{
    // Vote filter
    if let Some(want_vote) = filter.vote {
        if want_vote != info.is_vote {
            return false;
        }
    }
    // Failed filter
    if let Some(want_failed) = filter.failed {
        let is_failed: bool = match &info.meta {
            Some(m) => m.failed,
            None => false,
        };
        if want_failed != is_failed {
            return false;
        }
    }
    // Signature filter
    if let Some(want_sig) = &filter.signature {
        if !text::bytes_eq(info.signature.as_slice(), want_sig.as_slice()) {
            return false;
        }
    }
    // Account include: at least one tx account must be in the filter set
    if !filter.account_include.is_empty() {
        if !any_in(account_keys, &filter.account_include) {
            return false;
        }
    }
    // Account exclude: no tx account may be in the filter set
    if any_in(account_keys, &filter.account_exclude) {
        return false;
    }
    // Account required: ALL filter accounts must appear in the tx
    all_there(account_keys, &filter.account_required)
}

fn entry_name_list<V>(entries: &Vec<(String, V)>) -> (r: Vec<String>)
    ensures
        text::views(r@) == names::entry_names(entries@),
{
    let mut out: Vec<String> = Vec::new();
    let mut i: usize = 0;
    while i < entries.len()
        invariant
            i <= entries@.len(),
            text::views(out@) == names::entry_names(entries@).take(i as int),
        decreases entries@.len() - i,
    {
        let ghost before = out@;
        out.push(entries[i].0.clone());
        assert(text::views(out@) =~= text::views(before).push(entries@[i as int].0@));
        i = i + 1;
        assert(text::views(out@) =~= names::entry_names(entries@).take(i as int));
    }
    assert(text::views(out@) =~= names::entry_names(entries@));
    out
}

fn name_list(names: Vec<String>) -> (r: Option<Vec<String>>)
    ensures
        opt_views(r) == some_names(text::views(names@)),
{
    if names.len() == 0 {
        None
    } else {
        Some(names)
    }
}

impl CompiledFilters {
    /// No name occurs twice among filters of one type.
    pub open spec fn wf(self) -> bool {
        self.transactions.wf() && self.slots.wf()
    }

    /// The subscription asks for what the mux does not serve.
    pub open spec fn goes_direct(self) -> bool {
        self.has_accounts || self.has_blocks || self.has_transactions_status
    }

    /// The subscription asks for something that the mux serves.
    pub open spec fn uses_mux(self) -> bool {
        self.transactions.names().len() > 0 || self.slots.names().len() > 0
            || self.blocks_meta@.len() > 0 || self.entry@.len() > 0
    }

    pub fn from_request(req: &SubscribeRequest) -> (c: CompiledFilters)
        requires
            req.wf(),
        ensures
            c.wf(),
            is_compiled_request(c, *req),
    {
        let mut transactions: Vec<(String, CompiledTxFilter)> = Vec::new();
        let mut i: usize = 0;
        while i < req.transactions.entries.len()
            invariant
                i <= req.transactions.entries@.len(),
                transactions@.len() == i,
                forall|j: int|
                    0 <= j < i ==> (#[trigger] transactions@[j]).0
                        == req.transactions.entries@[j].0 && is_compiled(
                        transactions@[j].1,
                        req.transactions.entries@[j].1,
                    ),
            decreases req.transactions.entries@.len() - i,
        {
            let f = compile_tx_filter(&req.transactions.entries[i].1);
            transactions.push((req.transactions.entries[i].0.clone(), f));
            i = i + 1;
        }
        let mut slots: Vec<(String, CompiledSlotFilter)> = Vec::new();
        let mut k: usize = 0;
        while k < req.slots.entries.len()
            invariant
                k <= req.slots.entries@.len(),
                slots@.len() == k,
                forall|j: int|
                    0 <= j < k ==> (#[trigger] slots@[j]).0 == req.slots.entries@[j].0
                        && slots@[j].1.filter_by_commitment
                        == req.slots.entries@[j].1.filter_by_commitment,
            decreases req.slots.entries@.len() - k,
        {
            slots.push(
                (
                    req.slots.entries[k].0.clone(),
                    CompiledSlotFilter {
                        filter_by_commitment: req.slots.entries[k].1.filter_by_commitment,
                    },
                ),
            );
            k = k + 1;
        }
        let c = CompiledFilters {
            transactions: NameMap { entries: transactions },
            slots: NameMap { entries: slots },
            blocks_meta: text::clone_strings(&req.blocks_meta),
            entry: text::clone_strings(&req.entry),
            has_accounts: req.accounts.entries.len() != 0,
            has_blocks: req.blocks.len() != 0,
            has_transactions_status: req.transactions_status.len() != 0,
        };
        assert(c.transactions.names() =~= req.transactions.names());
        assert(c.slots.names() =~= req.slots.names());
        c
    }

    /// Returns true if this subscription requires a direct upstream connection
    /// (contains filter types the mux doesn't serve).
    pub fn needs_direct_connection(&self) -> (r: bool)
        ensures
            r == self.goes_direct(),
    {
        self.has_accounts || self.has_blocks || self.has_transactions_status
    }

    /// Returns true if these filters subscribe to anything the mux can serve.
    pub fn has_mux_subscriptions(&self) -> (r: bool)
        ensures
            r == self.uses_mux(),
    {
        self.transactions.entries.len() != 0 || self.slots.entries.len() != 0
            || self.blocks_meta.len() != 0 || self.entry.len() != 0
    }

    /// Match a SubscribeUpdate against these filters.
    /// Returns the list of matching filter names, or None if no filter matches.
    pub fn match_update(&self, update: &SubscribeUpdate) -> (r: Option<Vec<String>>)
        ensures
            opt_views(r) == matching(*self, *update),
    {
        match &update.update_oneof {
            Some(UpdateOneof::Transaction(info)) => match info {
                Some(info) => self.match_transaction(info),
                None => None,
            },
            Some(UpdateOneof::Slot { .. }) => name_list(entry_name_list(&self.slots.entries)),
            Some(UpdateOneof::BlockMeta { .. }) => name_list(
                text::clone_strings(&self.blocks_meta),
            ),
            Some(UpdateOneof::Entry { .. }) => name_list(text::clone_strings(&self.entry)),
            Some(UpdateOneof::Ping) | Some(UpdateOneof::Pong { .. }) => {
                let none: Vec<String> = Vec::new();
                assert(text::views(none@) =~= Seq::<Seq<char>>::empty());
                Some(none)
            },
            // Account, Block, TransactionStatus are not served by mux
            _ => None,
        }
    }

    fn match_transaction(&self, info: &TransactionInfo) -> (r: Option<Vec<String>>)
        ensures
            opt_views(r) == some_names(passing_names(self.transactions.entries@, *info)),
    {
        let account_keys = collect_tx_account_keys(info);
        let mut matched: Vec<String> = Vec::new();
        let mut i: usize = 0;
        assert(self.transactions.entries@.take(0) =~= Seq::<(String, CompiledTxFilter)>::empty());
        assert(text::views(matched@) =~= Seq::<Seq<char>>::empty());
        while i < self.transactions.entries.len()
            invariant
                i <= self.transactions.entries@.len(),
                ref_views(account_keys@) == tx_keys(*info),
                text::views(matched@) == passing_names(
                    self.transactions.entries@.take(i as int),
                    *info,
                ),
            decreases self.transactions.entries@.len() - i,
        {
            let ghost before = matched@;
            assert(self.transactions.entries@.take(i + 1).drop_last()
                =~= self.transactions.entries@.take(i as int));
            if matches_tx_filter(&self.transactions.entries[i].1, info, &account_keys) {
                matched.push(self.transactions.entries[i].0.clone());
                assert(text::views(matched@) =~= text::views(before).push(
                    self.transactions.entries@[i as int].0@,
                ));
            }
            i = i + 1;
        }
        assert(self.transactions.entries@.take(i as int) =~= self.transactions.entries@);
        name_list(matched)
    }
}

/// What keeps a transaction from passing, each for itself: it is a vote or not, against what the filter
/// asks, it failed or not, against what the filter asks, where one without a result counts as not
/// failed, it has another signature, it touches none of the accounts of which it has to touch one, it
/// touches one that it must not touch, or does not touch one that it has to. Where nothing does, it
/// passes.
pub proof fn law_what_keeps_a_transaction_back(
    f: CompiledTxFilter,
    info: TransactionInfo,
    keys: Seq<Seq<u8>>,
)
    ensures
        f.vote == Some(true) && !info.is_vote ==> !passes_with(f, info, keys),
        f.vote == Some(false) && info.is_vote ==> !passes_with(f, info, keys),
        f.failed == Some(true) && (info.meta is None || !info.meta->0.failed) ==> !passes_with(
            f,
            info,
            keys,
        ),
        f.failed == Some(false) && info.meta is Some && info.meta->0.failed ==> !passes_with(
            f,
            info,
            keys,
        ),
        f.signature is Some && f.signature->0@ != info.signature@ ==> !passes_with(f, info, keys),
        (exists|k: Seq<u8>| f.account_include@.contains(k)) && (forall|i: int|
            0 <= i < keys.len() ==> !f.account_include@.contains(#[trigger] keys[i]))
            ==> !passes_with(f, info, keys),
        (exists|i: int| 0 <= i < keys.len() && f.account_exclude@.contains(#[trigger] keys[i]))
            ==> !passes_with(f, info, keys),
        (exists|k: Seq<u8>| #[trigger]
            f.account_required@.contains(k) && forall|i: int|
                0 <= i < keys.len() ==> #[trigger] keys[i] != k) ==> !passes_with(f, info, keys),
        ({
            &&& f.vote is None || f.vote == Some(info.is_vote)
            &&& f.failed is None || f.failed == Some(info.meta is Some && info.meta->0.failed)
            &&& f.signature is None || f.signature->0@ == info.signature@
            &&& f.account_include@ == Set::<Seq<u8>>::empty() || exists|i: int|
                0 <= i < keys.len() && f.account_include@.contains(#[trigger] keys[i])
            &&& forall|i: int|
                0 <= i < keys.len() ==> !f.account_exclude@.contains(#[trigger] keys[i])
            &&& forall|k: Seq<u8>| #[trigger]
                f.account_required@.contains(k) ==> exists|i: int|
                    0 <= i < keys.len() && #[trigger] keys[i] == k
        }) ==> passes_with(f, info, keys),
{
    assert forall|i: int| 0 <= i < keys.len() implies keys.contains(#[trigger] keys[i]) by {}
    if passes_with(f, info, keys) {
        if exists|k: Seq<u8>| f.account_include@.contains(k) {
            assert(f.account_include@ != Set::<Seq<u8>>::empty());
            let k = choose|k: Seq<u8>| #[trigger]
                keys.contains(k) && f.account_include@.contains(k);
            assert(keys[keys.index_of(k)] == k);
        }
        assert forall|k: Seq<u8>| #[trigger] f.account_required@.contains(k) implies exists|i: int|
            0 <= i < keys.len() && #[trigger] keys[i] == k by {
            assert(keys[keys.index_of(k)] == k);
        }
    }
    assert forall|k: Seq<u8>| #[trigger] keys.contains(k) implies k == keys[keys.index_of(k)] by {}
    assert forall|k: Seq<u8>| (exists|i: int| 0 <= i < keys.len() && #[trigger] keys[i] == k) implies keys.contains(k) by {
        let i = choose|i: int| 0 <= i < keys.len() && #[trigger] keys[i] == k;
        assert(keys[i] == k);
    }
}

/// The accounts that a transaction touches are those of its message and those that were loaded for it,
/// whether to be written or only read, and no other; a transaction passes by these.
pub proof fn law_accounts_of_a_transaction(f: CompiledTxFilter, info: TransactionInfo, key: Seq<u8>)
    ensures
        tx_passes(f, info) <==> passes_with(f, info, tx_keys(info)),
        tx_keys(info).contains(key) <==> {
            ||| info.transaction is Some && info.transaction->0.message is Some && exists|i: int|
                0 <= i < info.transaction->0.message->0.account_keys@.len() && (
                #[trigger] info.transaction->0.message->0.account_keys@[i])@ == key
            ||| info.meta is Some && exists|i: int|
                0 <= i < info.meta->0.loaded_writable_addresses@.len() && (
                #[trigger] info.meta->0.loaded_writable_addresses@[i])@ == key
            ||| info.meta is Some && exists|i: int|
                0 <= i < info.meta->0.loaded_readonly_addresses@.len() && (
                #[trigger] info.meta->0.loaded_readonly_addresses@[i])@ == key
        },
{
    let own = message_keys(info);
    if info.transaction is Some && info.transaction->0.message is Some {
        lemma_key_views(info.transaction->0.message->0.account_keys@, key);
    }
    if info.meta is Some {
        let w = info.meta->0.loaded_writable_addresses@;
        let r = info.meta->0.loaded_readonly_addresses@;
        lemma_key_views(w, key);
        lemma_key_views(r, key);
        lemma_contains_either(key_views(w), key_views(r), key);
        lemma_contains_either(own, key_views(w) + key_views(r), key);
    } else {
        lemma_contains_either(own, Seq::<Seq<u8>>::empty(), key);
    }
}

proof fn lemma_key_views(keys: Seq<Vec<u8>>, key: Seq<u8>)
    ensures
        key_views(keys).contains(key) <==> exists|i: int|
            0 <= i < keys.len() && (#[trigger] keys[i])@ == key,
{
    if key_views(keys).contains(key) {
        let i = key_views(keys).index_of(key);
        assert(keys[i]@ == key);
    }
    if exists|i: int| 0 <= i < keys.len() && (#[trigger] keys[i])@ == key {
        let i = choose|i: int| 0 <= i < keys.len() && (#[trigger] keys[i])@ == key;
        assert(key_views(keys)[i] == key);
    }
}

proof fn lemma_contains_either(a: Seq<Seq<u8>>, b: Seq<Seq<u8>>, key: Seq<u8>)
    ensures
        (a + b).contains(key) <==> a.contains(key) || b.contains(key),
{
    let both = a + b;
    if both.contains(key) {
        let i = both.index_of(key);
        if i < a.len() {
            assert(a[i] == key);
        } else {
            assert(b[i - a.len()] == key);
        }
    }
    if a.contains(key) {
        assert(both[a.index_of(key)] == key);
    }
    if b.contains(key) {
        assert(both[a.len() + b.index_of(key)] == key);
    }
}

/// What a client is told of an update: of a transaction the names of the filters that let it pass, of a
/// slot, block metadata or an entry the names of all its filters of that kind, and nothing where there
/// are none. Pings and pongs come without names. Accounts, blocks and transaction statuses never come
/// over the shared stream.
pub proof fn law_update_goes_under_the_names_of_its_kind(c: CompiledFilters, update: SubscribeUpdate)
    ensures
        match update.update_oneof {
            Some(UpdateOneof::Transaction(Some(info))) => {
                let names = c.transactions.entries@.filter(
                    |e: (String, CompiledTxFilter)| tx_passes(e.1, info),
                ).map_values(|e: (String, CompiledTxFilter)| e.0@);
                &&& names.len() == 0 ==> matching(c, update) is None
                &&& names.len() > 0 ==> matching(c, update) == Some(names)
            },
            Some(UpdateOneof::Slot { .. }) => {
                &&& c.slots.entries@.len() == 0 ==> matching(c, update) is None
                &&& c.slots.entries@.len() > 0 ==> matching(c, update) == Some(
                    c.slots.entries@.map_values(|e: (String, CompiledSlotFilter)| e.0@),
                )
            },
            Some(UpdateOneof::BlockMeta { .. }) => {
                &&& c.blocks_meta@.len() == 0 ==> matching(c, update) is None
                &&& c.blocks_meta@.len() > 0 ==> matching(c, update) == Some(
                    c.blocks_meta@.map_values(|s: String| s@),
                )
            },
            Some(UpdateOneof::Entry { .. }) => {
                &&& c.entry@.len() == 0 ==> matching(c, update) is None
                &&& c.entry@.len() > 0 ==> matching(c, update) == Some(
                    c.entry@.map_values(|s: String| s@),
                )
            },
            Some(UpdateOneof::Ping) => matching(c, update) == Some(Seq::<Seq<char>>::empty()),
            Some(UpdateOneof::Pong { .. }) => matching(c, update) == Some(Seq::<Seq<char>>::empty()),
            _ => matching(c, update) is None,
        },
{
    if let Some(UpdateOneof::Transaction(Some(info))) = update.update_oneof {
        lemma_passing_names_filter(c.transactions.entries@, info);
    }
    assert(c.slots.names() =~= c.slots.entries@.map_values(
        |e: (String, CompiledSlotFilter)| e.0@,
    ));
    assert(text::views(c.blocks_meta@) =~= c.blocks_meta@.map_values(|s: String| s@));
    assert(text::views(c.entry@) =~= c.entry@.map_values(|s: String| s@));
}

proof fn lemma_passing_names_filter(entries: Seq<(String, CompiledTxFilter)>, info: TransactionInfo)
    ensures
        passing_names(entries, info) == entries.filter(
            |e: (String, CompiledTxFilter)| tx_passes(e.1, info),
        ).map_values(|e: (String, CompiledTxFilter)| e.0@),
    decreases entries.len(),
{
    let ok = |e: (String, CompiledTxFilter)| tx_passes(e.1, info);
    reveal(Seq::filter);
    if entries.len() > 0 {
        let rest = entries.drop_last();
        lemma_passing_names_filter(rest, info);
        let before = rest.filter(ok);
        if ok(entries.last()) {
            assert(entries.filter(ok) =~= before.push(entries.last()));
            assert(before.push(entries.last()).map_values(
                |e: (String, CompiledTxFilter)| e.0@,
            ) =~= before.map_values(|e: (String, CompiledTxFilter)| e.0@).push(
                entries.last().0@,
            ));
        }
    } else {
        assert(entries.filter(ok).map_values(|e: (String, CompiledTxFilter)| e.0@) =~= Seq::<
            Seq<char>,
        >::empty());
    }
}

/// What a client asked for is what its updates are held against: each filter under its name, with what
/// it says of votes and failures, the accounts that it names, each in its own list, and the signature.
pub proof fn law_filter_says_what_was_asked(
    c: CompiledFilters,
    req: SubscribeRequest,
    i: int,
    key: Seq<u8>,
)
    requires
        is_compiled_request(c, req),
        0 <= i < req.transactions.entries@.len(),
    ensures
        c.transactions.entries@.len() == req.transactions.entries@.len(),
        c.transactions.entries@[i].0@ == req.transactions.entries@[i].0@,
        ({
            let f = c.transactions.entries@[i].1;
            let asked = req.transactions.entries@[i].1;
            &&& f.vote == asked.vote
            &&& f.failed == asked.failed
            &&& f.signature is Some && f.signature->0@ == key <==> asked.signature is Some
                && codec::base58(asked.signature->0@) == Some(key)
            &&& f.account_include@.contains(key) <==> exists|j: int|
                0 <= j < asked.account_include@.len() && codec::base58(
                    (#[trigger] asked.account_include@[j])@,
                ) == Some(key)
            &&& f.account_exclude@.contains(key) <==> exists|j: int|
                0 <= j < asked.account_exclude@.len() && codec::base58(
                    (#[trigger] asked.account_exclude@[j])@,
                ) == Some(key)
            &&& f.account_required@.contains(key) <==> exists|j: int|
                0 <= j < asked.account_required@.len() && codec::base58(
                    (#[trigger] asked.account_required@[j])@,
                ) == Some(key)
        }),
{
    let f = c.transactions.entries@[i].1;
    let asked = req.transactions.entries@[i].1;
    assert(c.transactions.names().len() == req.transactions.names().len());
    assert(c.transactions.names()[i] == req.transactions.names()[i]);
    assert(is_compiled(f, asked));
    lemma_decoded_set(asked.account_include@, key);
    lemma_decoded_set(asked.account_exclude@, key);
    lemma_decoded_set(asked.account_required@, key);
}

proof fn lemma_decoded_set(keys: Seq<String>, key: Seq<u8>)
    ensures
        decoded_set(decode_all(keys)).contains(key) <==> exists|j: int|
            0 <= j < keys.len() && codec::base58((#[trigger] keys[j])@) == Some(key),
{
    let decoded = decode_all(keys);
    if decoded.contains(Some(key)) {
        let j = decoded.index_of(Some(key));
        assert(codec::base58(keys[j]@) == Some(key));
    }
    if exists|j: int| 0 <= j < keys.len() && codec::base58((#[trigger] keys[j])@) == Some(key) {
        let j = choose|j: int|
            0 <= j < keys.len() && codec::base58((#[trigger] keys[j])@) == Some(key);
        assert(decoded[j] == Some(key));
    }
}

/// A client that asks for accounts, blocks or transaction statuses needs a stream of its own; it uses the
/// shared one where it asks for transactions, slots, block metadata or entries, under the names that it
/// gave.
pub proof fn law_kinds_decide_the_way(c: CompiledFilters, req: SubscribeRequest)
    requires
        is_compiled_request(c, req),
    ensures
        c.goes_direct() <==> req.accounts.entries@.len() > 0 || req.blocks@.len() > 0
            || req.transactions_status@.len() > 0,
        c.uses_mux() <==> req.transactions.entries@.len() > 0 || req.slots.entries@.len() > 0
            || req.blocks_meta@.len() > 0 || req.entry@.len() > 0,
        c.slots.names() == req.slots.names(),
        text::views(c.blocks_meta@) == text::views(req.blocks_meta@),
        text::views(c.entry@) == text::views(req.entry@),
{
    assert(req.transactions.names().len() == req.transactions.entries@.len());
    assert(req.slots.names().len() == req.slots.entries@.len());
}

/// A name is among those that match exactly when its filter lets the transaction pass.
pub proof fn law_matched_names_pass(
    entries: Seq<(String, CompiledTxFilter)>,
    info: TransactionInfo,
    name: Seq<char>,
)
    ensures
        passing_names(entries, info).contains(name) <==> exists|i: int|
            0 <= i < entries.len() && (#[trigger] entries[i]).0@ == name && tx_passes(
                entries[i].1,
                info,
            ),
    decreases entries.len(),
{
    let all = passing_names(entries, info);
    if entries.len() > 0 {
        let rest = entries.drop_last();
        let before = passing_names(rest, info);
        law_matched_names_pass(rest, info, name);
        if before.contains(name) {
            assert(all[before.index_of(name)] == name);
            let i = choose|i: int|
                0 <= i < rest.len() && (#[trigger] rest[i]).0@ == name && tx_passes(
                    rest[i].1,
                    info,
                );
            assert(entries[i] == rest[i]);
        }
        if tx_passes(entries.last().1, info) {
            assert(all[all.len() - 1] == entries.last().0@);
            assert(entries[entries.len() - 1] == entries.last());
        }
        if all.contains(name) {
            let p = all.index_of(name);
            if p < before.len() {
                assert(before[p] == name);
            }
        }
        if exists|i: int|
            0 <= i < entries.len() && (#[trigger] entries[i]).0@ == name && tx_passes(
                entries[i].1,
                info,
            ) {
            let i = choose|i: int|
                0 <= i < entries.len() && (#[trigger] entries[i]).0@ == name && tx_passes(
                    entries[i].1,
                    info,
                );
            if i < rest.len() {
                assert(rest[i] == entries[i]);
            }
        }
    }
}

/// Neither the order nor the number of times in which accounts are given matters.
pub proof fn law_only_the_set_of_accounts_counts(
    f: CompiledTxFilter,
    info: TransactionInfo,
    a: Seq<Seq<u8>>,
    b: Seq<Seq<u8>>,
)
    requires
        a.to_set() == b.to_set(),
    ensures
        passes_with(f, info, a) == passes_with(f, info, b),
{
    assert forall|k: Seq<u8>| a.contains(k) == b.contains(k) by {
        assert(a.to_set().contains(k) == a.contains(k));
        assert(b.to_set().contains(k) == b.contains(k));
    }
}

/// A filter that asks for nothing lets every transaction pass.
pub proof fn law_open_filter_passes_all(f: CompiledTxFilter, info: TransactionInfo)
    requires
        f.vote is None,
        f.failed is None,
        f.signature is None,
        f.account_include@ == Set::<Seq<u8>>::empty(),
        f.account_exclude@ == Set::<Seq<u8>>::empty(),
        f.account_required@ == Set::<Seq<u8>>::empty(),
    ensures
        tx_passes(f, info),
{
}

/// A transaction that touches an excluded account never passes, whatever else the filter says.
pub proof fn law_excluded_account_blocks(f: CompiledTxFilter, info: TransactionInfo, key: Seq<u8>)
    requires
        tx_keys(info).contains(key),
        f.account_exclude@.contains(key),
    ensures
        !tx_passes(f, info),
{
}

/// What the mux can match, it was subscribed to: an update other than a ping or pong matches only
/// where the client has filters that the mux serves.
pub proof fn law_match_needs_subscription(c: CompiledFilters, update: SubscribeUpdate)
    requires
        matching(c, update) is Some,
        !(update.update_oneof matches Some(UpdateOneof::Ping)),
        !(update.update_oneof matches Some(UpdateOneof::Pong { .. })),
    ensures
        c.transactions.names().len() > 0 || c.slots.names().len() > 0 || c.blocks_meta@.len() > 0
            || c.entry@.len() > 0,
{
}

} // verus!
