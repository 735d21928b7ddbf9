//! Transactions as the pool and the builder see them: the validated
//! transaction, its pool identifier, the pending wrapper carrying the
//! ordering priority, and the receipt produced by execution.

use vstd::prelude::*;
use crate::primitives::{Address, B256};

verus! {

/// Kind discriminant of a validated transaction.
#[derive(Clone, Copy, PartialEq, Eq, Structural, Debug)]
pub enum TxKind {
    Legacy,
    Eip1559,
    Eip4844,
}

/// Identifier of a pool transaction: its sender and nonce.
#[derive(Clone, Copy, PartialEq, Eq, Structural, Debug)]
pub struct TransactionId {
    pub sender: Address,
    pub nonce: u64,
}

impl TransactionId {
    /// The id of the direct ancestor, the transaction of the same sender
    /// with the previous nonce; `None` for nonce zero.
    pub fn unchecked_ancestor(&self) -> (r: Option<TransactionId>)
        ensures
            self.nonce == 0 ==> r is None,
            self.nonce > 0 ==> r == Some(TransactionId { sender: self.sender, nonce: (self.nonce - 1) as u64 }),
    {
        if self.nonce == 0 {
            None
        } else {
            Some(TransactionId { sender: self.sender, nonce: self.nonce - 1 })
        }
    }
}

/// A validated pool transaction, immutable once validated.
#[derive(Clone, Copy, PartialEq, Eq, Structural, Debug)]
pub struct PoolTransaction {
    /// Unique hash of the signed transaction.
    pub hash: B256,
    pub sender: Address,
    pub nonce: u64,
    pub gas_limit: u64,
    pub max_fee_per_gas: u128,
    /// Blob fee cap; `Some` exactly for EIP-4844 transactions.
    pub max_fee_per_blob_gas: Option<u128>,
    pub kind: TxKind,
    /// Blob gas this transaction consumes; zero unless EIP-4844.
    pub blob_gas: u64,
    /// Whether the transaction came from a private local source.
    pub is_private: bool,
}

impl PoolTransaction {
    pub open spec fn id_spec(self) -> TransactionId {
        TransactionId { sender: self.sender, nonce: self.nonce }
    }

    /// The pool identifier of this transaction.
    pub fn id(&self) -> (r: TransactionId)
        ensures
            r == self.id_spec(),
    {
        TransactionId { sender: self.sender, nonce: self.nonce }
    }

    /// Whether this is a blob-carrying EIP-4844 transaction.
    pub fn is_eip4844(&self) -> (r: bool)
        ensures
            r == (self.kind == TxKind::Eip4844),
    {
        match self.kind {
            TxKind::Eip4844 => true,
            _ => false,
        }
    }
}

/// A pool transaction together with the ordering key the pluggable
/// priority capability assigned when it entered the pending pool.
#[derive(Clone, Copy, PartialEq, Eq, Structural, Debug)]
pub struct PendingTransaction {
    /// Monotonically increasing submission counter, the tie-breaker.
    pub submission_id: u64,
    /// Priority supplied by the ordering capability; higher is better.
    pub priority: u128,
    pub transaction: PoolTransaction,
}

impl PendingTransaction {
    /// The id this transaction unlocks once it has been yielded: the
    /// same sender's next nonce.
    pub fn unlocks(&self) -> (r: Option<TransactionId>)
        ensures
            self.transaction.nonce < u64::MAX ==> r == Some(
                TransactionId {
                    sender: self.transaction.sender,
                    nonce: (self.transaction.nonce + 1) as u64,
                },
            ),
            self.transaction.nonce == u64::MAX ==> r is None,
    {
        if self.transaction.nonce < u64::MAX {
            Some(
                TransactionId {
                    sender: self.transaction.sender,
                    nonce: self.transaction.nonce + 1,
                },
            )
        } else {
            None
        }
    }
}

/// Whether `a` beats `b` in the pending-pool priority order: higher
/// priority first, earlier submission on a tie.
pub open spec fn beats_spec(a: PendingTransaction, b: PendingTransaction) -> bool {
    a.priority > b.priority || (a.priority == b.priority && a.submission_id < b.submission_id)
}

/// Executable comparison in the pending-pool priority order.
pub fn beats(a: &PendingTransaction, b: &PendingTransaction) -> (r: bool)
    ensures
        r == beats_spec(*a, *b),
{
    a.priority > b.priority || (a.priority == b.priority && a.submission_id < b.submission_id)
}

/// An event log entry produced by execution.
#[derive(Clone, PartialEq, Eq, Debug)]
pub struct Log {
    pub address: Address,
    pub topics: Vec<B256>,
    pub data: Vec<u8>,
}

/// Outcome of executing one transaction in the EVM collaborator.
#[derive(Clone, PartialEq, Eq, Debug)]
pub enum ExecutionResult {
    Success { gas_used: u64, logs: Vec<Log>, output: Vec<u8> },
    Revert { gas_used: u64, output: Vec<u8> },
    Halt { gas_used: u64 },
}

impl ExecutionResult {
    pub open spec fn is_success_spec(self) -> bool {
        self is Success
    }

    /// Whether execution succeeded.
    pub fn is_success(&self) -> (r: bool)
        ensures
            r == self.is_success_spec(),
    {
        match self {
            ExecutionResult::Success { .. } => true,
            _ => false,
        }
    }

    pub open spec fn gas_used_spec(self) -> u64 {
        match self {
            ExecutionResult::Success { gas_used, .. } => gas_used,
            ExecutionResult::Revert { gas_used, .. } => gas_used,
            ExecutionResult::Halt { gas_used } => gas_used,
        }
    }

    /// Gas consumed by the execution.
    pub fn gas_used(&self) -> (r: u64)
        ensures
            r == self.gas_used_spec(),
    {
        match self {
            ExecutionResult::Success { gas_used, .. } => *gas_used,
            ExecutionResult::Revert { gas_used, .. } => *gas_used,
            ExecutionResult::Halt { gas_used } => *gas_used,
        }
    }

    pub open spec fn logs_spec(self) -> Seq<Log> {
        match self {
            ExecutionResult::Success { logs, .. } => logs@,
            _ => Seq::empty(),
        }
    }

    /// The logs of a successful execution; failures log nothing.
    pub fn into_logs(self) -> (r: Vec<Log>)
        ensures
            r@ == self.logs_spec(),
    {
        match self {
            ExecutionResult::Success { logs, .. } => logs,
            _ => Vec::new(),
        }
    }

    pub open spec fn output_spec(self) -> Seq<u8> {
        match self {
            ExecutionResult::Success { output, .. } => output@,
            ExecutionResult::Revert { output, .. } => output@,
            ExecutionResult::Halt { .. } => Seq::empty(),
        }
    }

    /// The raw return data of a successful execution.
    pub fn into_data(self) -> (r: Vec<u8>)
        ensures
            r@ == self.output_spec() || !(self is Success),
            self is Success ==> r@ == self.output_spec(),
    {
        match self {
            ExecutionResult::Success { output, .. } => output,
            ExecutionResult::Revert { output, .. } => output,
            ExecutionResult::Halt { .. } => Vec::new(),
        }
    }
}

/// Receipt of one executed transaction.
#[derive(Clone, PartialEq, Eq, Debug)]
pub struct Receipt {
    pub tx_type: TxKind,
    pub success: bool,
    /// Gas used by the block up to and including this transaction.
    pub cumulative_gas_used: u64,
    pub logs: Vec<Log>,
}

} // verus!
