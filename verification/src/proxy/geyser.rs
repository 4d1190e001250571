//! The parts of Yellowstone's messages on which decisions rest.

use crate::names::NameMap;
use vstd::prelude::*;

verus! {

/// A client's filter on transactions. Accounts and the signature are in base58.
#[derive(Debug)]
pub struct TransactionsFilter {
    pub vote: Option<bool>,
    pub failed: Option<bool>,
    pub signature: Option<String>,
    pub account_include: Vec<String>,
    pub account_exclude: Vec<String>,
    pub account_required: Vec<String>,
}

/// A client's filter on accounts, in base58.
#[derive(Debug)]
pub struct AccountsFilter {
    pub account: Vec<String>,
}

/// A client's filter on slots.
#[derive(Debug, Clone, Copy)]
pub struct SlotsFilter {
    pub filter_by_commitment: Option<bool>,
    pub interslot_updates: Option<bool>,
}

/// What a client subscribes to: named filters of each type, or a ping.
pub struct SubscribeRequest {
    pub accounts: NameMap<AccountsFilter>,
    pub slots: NameMap<SlotsFilter>,
    pub transactions: NameMap<TransactionsFilter>,
    /// The names of the filters on transaction statuses.
    pub transactions_status: Vec<String>,
    /// The names of the filters on blocks.
    pub blocks: Vec<String>,
    /// The names of the filters on block metadata.
    pub blocks_meta: Vec<String>,
    /// The names of the filters on entries.
    pub entry: Vec<String>,
    pub commitment: Option<i32>,
    /// The id of a ping.
    pub ping: Option<i32>,
}

/// The message of a transaction.
#[derive(Debug)]
pub struct TxMessage {
    pub account_keys: Vec<Vec<u8>>,
}

/// A transaction as it was sent.
#[derive(Debug)]
pub struct TxBody {
    pub message: Option<TxMessage>,
}

/// What became of a transaction.
#[derive(Debug)]
pub struct TxMeta {
    /// Whether it ended in an error.
    pub failed: bool,
    pub loaded_writable_addresses: Vec<Vec<u8>>,
    pub loaded_readonly_addresses: Vec<Vec<u8>>,
}

/// A transaction in an update.
#[derive(Debug)]
pub struct TransactionInfo {
    pub signature: Vec<u8>,
    pub is_vote: bool,
    pub transaction: Option<TxBody>,
    pub meta: Option<TxMeta>,
}

/// What an update is about.
#[derive(Debug)]
pub enum UpdateOneof {
    Account,
    Slot { slot: u64, status: i32 },
    Transaction(Option<TransactionInfo>),
    TransactionStatus { signature: Vec<u8> },
    Block,
    Ping,
    Pong { id: i32 },
    BlockMeta { slot: u64 },
    Entry { slot: u64, index: u64 },
}

/// A message of an upstream.
#[derive(Debug)]
pub struct SubscribeUpdate {
    /// The names of the filters that the update matches.
    pub filters: Vec<String>,
    pub update_oneof: Option<UpdateOneof>,
}

impl SubscribeRequest {
    /// No name occurs twice among filters of a type that carries more than names.
    pub open spec fn wf(self) -> bool {
        self.accounts.wf() && self.slots.wf() && self.transactions.wf()
    }
}

} // verus!
