//! The EVM collaborator as the pipeline consumes it: an environment
//! (configuration, block, transaction), a `transact` step, and a commit
//! log of applied state diffs. A scripted implementation drives the
//! verified logic in tests and demos.

use vstd::prelude::*;
use crate::chain::SpecId;
use crate::primitives::{Address, B256, U256};
use crate::state::{BundleState, ProviderError, StateCommit, StateDiff};
use crate::tx::{ExecutionResult, PoolTransaction};

verus! {

/// Excess blob gas of the block and the blob gas price derived from it.
#[derive(Clone, Copy, PartialEq, Eq, Structural, Debug)]
pub struct BlobExcessGasAndPrice {
    pub excess_blob_gas: u64,
    pub blob_gasprice: u128,
}

/// The block half of the EVM environment.
#[derive(Clone, Copy, PartialEq, Eq, Structural, Debug)]
pub struct BlockEnv {
    pub number: u64,
    pub coinbase: Address,
    pub timestamp: u64,
    /// Post-merge randomness; `None` before the merge.
    pub prevrandao: Option<B256>,
    pub difficulty: U256,
    pub basefee: u64,
    pub gas_limit: u64,
    pub blob_excess_gas_and_price: Option<BlobExcessGasAndPrice>,
}

impl BlockEnv {
    pub open spec fn spec_blob_gasprice(self) -> Option<u128> {
        match self.blob_excess_gas_and_price {
            Some(b) => Some(b.blob_gasprice),
            None => None,
        }
    }

    /// The blob gas price, when the block carries blob gas accounting.
    pub fn get_blob_gasprice(&self) -> (r: Option<u128>)
        ensures
            r == self.spec_blob_gasprice(),
    {
        match self.blob_excess_gas_and_price {
            Some(b) => Some(b.blob_gasprice),
            None => None,
        }
    }

    pub open spec fn spec_blob_excess_gas(self) -> Option<u64> {
        match self.blob_excess_gas_and_price {
            Some(b) => Some(b.excess_blob_gas),
            None => None,
        }
    }

    /// The excess blob gas, when the block carries blob gas accounting.
    pub fn get_blob_excess_gas(&self) -> (r: Option<u64>)
        ensures
            r == self.spec_blob_excess_gas(),
    {
        match self.blob_excess_gas_and_price {
            Some(b) => Some(b.excess_blob_gas),
            None => None,
        }
    }
}

/// The configuration half of the EVM environment.
#[derive(Clone, Copy, PartialEq, Eq, Structural, Debug)]
pub struct CfgEnv {
    pub chain_id: u64,
    /// The active hard fork.
    pub spec_id: SpecId,
}

/// Call data of a protocol system call: empty, or one 32-byte word.
#[derive(Clone, Copy, PartialEq, Eq, Structural, Debug)]
pub enum SystemCallData {
    Empty,
    Word(B256),
}

/// The transaction half of the EVM environment.
#[derive(Clone, Copy, PartialEq, Eq, Structural, Debug)]
pub enum TxEnv {
    /// No transaction staged.
    Unset,
    /// An ordinary pool transaction.
    User(PoolTransaction),
    /// A protocol system call with a synthetic sender.
    SystemCall { caller: Address, contract: Address, data: SystemCallData },
}

/// The full EVM environment.
#[derive(Clone, Copy, PartialEq, Eq, Structural, Debug)]
pub struct EvmEnv {
    pub cfg: CfgEnv,
    pub block: BlockEnv,
    pub tx: TxEnv,
}

/// A transaction-level failure reported by the EVM.
#[derive(Clone, Copy, PartialEq, Eq, Structural, Debug)]
pub enum InvalidTransaction {
    /// The transaction's nonce is below the sender's account nonce;
    /// benign during block building.
    NonceTooLow,
    /// The transaction's nonce is above the sender's account nonce.
    NonceTooHigh,
    /// The sender cannot cover the maximum fee.
    LackOfFundForMaxFee,
    /// Any other per-transaction rejection.
    Other,
}

/// A failure of one EVM execution.
#[derive(Clone, Copy, PartialEq, Eq, Structural, Debug)]
pub enum EvmError {
    /// The transaction itself is invalid; recoverable per transaction.
    Transaction(InvalidTransaction),
    /// The state store failed; fatal to the build.
    Database(crate::state::ProviderError),
    /// Any other EVM-internal failure; fatal to the build.
    Internal,
}

impl EvmError {
    pub open spec fn message_spec(self) -> Seq<char> {
        match self {
            EvmError::Transaction(InvalidTransaction::NonceTooLow) => "nonce too low"@,
            EvmError::Transaction(InvalidTransaction::NonceTooHigh) => "nonce too high"@,
            EvmError::Transaction(InvalidTransaction::LackOfFundForMaxFee) => (
            "lack of funds for max fee"@),
            EvmError::Transaction(InvalidTransaction::Other) => "invalid transaction"@,
            EvmError::Database(_) => "database error"@,
            EvmError::Internal => "internal evm error"@,
        }
    }

    /// A short description of the failure.
    pub fn message(&self) -> (r: String)
        ensures
            r@ == self.message_spec(),
    {
        match self {
            EvmError::Transaction(InvalidTransaction::NonceTooLow) => String::from_str(
                "nonce too low",
            ),
            EvmError::Transaction(InvalidTransaction::NonceTooHigh) => String::from_str(
                "nonce too high",
            ),
            EvmError::Transaction(InvalidTransaction::LackOfFundForMaxFee) => String::from_str(
                "lack of funds for max fee",
            ),
            EvmError::Transaction(InvalidTransaction::Other) => String::from_str(
                "invalid transaction",
            ),
            EvmError::Database(_) => String::from_str("database error"),
            EvmError::Internal => String::from_str("internal evm error"),
        }
    }
}

/// What one EVM execution returns: the result and the state diff it
/// proposes (not yet committed).
#[derive(Clone, PartialEq, Eq, Debug)]
pub struct ResultAndState {
    pub result: ExecutionResult,
    pub state: StateDiff,
}

/// A mutable EVM handle: the environment can be read and replaced, a
/// staged transaction executed, and a state diff committed. The commit
/// log is the observable state history.
pub trait EvmContext {
    /// The current environment.
    spec fn env(&self) -> EvmEnv;

    /// The state ledger: everything committed so far, in order.
    spec fn commits(&self) -> Seq<StateCommit>;

    /// Read the current environment.
    fn env_snapshot(&self) -> (e: EvmEnv)
        ensures
            e == self.env(),
    ;

    /// Replace the environment.
    fn set_env(&mut self, e: EvmEnv)
        ensures
            final(self).env() == e,
            final(self).commits() == old(self).commits(),
    ;

    /// Stage a protocol system call: synthetic caller, fixed contract,
    /// given call data; the rest of the environment is kept.
    fn fill_tx_env_system_contract_call(
        &mut self,
        caller: Address,
        contract: Address,
        data: SystemCallData,
    )
        ensures
            final(self).env() == (EvmEnv {
                tx: TxEnv::SystemCall { caller, contract, data },
                ..old(self).env()
            }),
            final(self).commits() == old(self).commits(),
    ;

    /// The block's beneficiary.
    fn block_coinbase(&self) -> (a: Address)
        ensures
            a == self.env().block.coinbase,
    ;

    /// Execute the staged transaction. The outcome depends on the
    /// implementation's state; the environment and the commit log are
    /// untouched either way.
    fn transact(&mut self) -> (r: Result<ResultAndState, EvmError>)
        ensures
            final(self).env() == old(self).env(),
            final(self).commits() == old(self).commits(),
    ;

    /// Commit a state diff.
    fn commit(&mut self, state: StateDiff)
        ensures
            final(self).env() == old(self).env(),
            final(self).commits() == old(self).commits().push(StateCommit::Diff(state)),
    ;

    /// Credit the post-block withdrawal balance increments.
    fn increment_balances(&mut self, increments: Vec<(Address, u128)>) -> (r: Result<
        (),
        ProviderError,
    >)
        ensures
            final(self).env() == old(self).env(),
            r is Ok ==> final(self).commits() == old(self).commits().push(
                StateCommit::BalanceIncrements(increments),
            ),
            r is Err ==> final(self).commits() == old(self).commits(),
    ;

    /// Merge all transitions and hand out the accumulated bundle,
    /// leaving the ledger empty.
    fn merge_and_take_bundle(&mut self) -> (b: BundleState)
        ensures
            final(self).env() == old(self).env(),
            b.commits@ == old(self).commits(),
            final(self).commits() == Seq::<StateCommit>::empty(),
    ;
}

/// An EVM handle that replays a prepared script of outcomes: the
/// reference implementation of [`EvmContext`] for tests and demos.
pub struct ScriptedEvm {
    env: EvmEnv,
    commits: Vec<StateCommit>,
    script: Vec<Result<ResultAndState, EvmError>>,
}

impl ScriptedEvm {
    /// The outcomes not yet replayed.
    pub closed spec fn script_view(self) -> Seq<Result<ResultAndState, EvmError>> {
        self.script@
    }

    /// The committed ledger entries, as values.
    pub closed spec fn commits_view(self) -> Seq<StateCommit> {
        self.commits@
    }

    /// An EVM over `env` that will answer `transact` calls with the
    /// outcomes of `script`, in order, and fail once it is exhausted.
    pub fn new(env: EvmEnv, script: Vec<Result<ResultAndState, EvmError>>) -> (r: ScriptedEvm)
        ensures
            r.env() == env,
            r.commits() == Seq::<StateCommit>::empty(),
            r.script_view() == script@,
    {
        ScriptedEvm { env, commits: Vec::new(), script }
    }

    /// The number of committed diffs.
    pub fn commit_count(&self) -> (r: usize)
        ensures
            r == self.commits().len(),
    {
        self.commits.len()
    }

    /// The committed ledger entry at position `i`.
    pub fn commit_at(&self, i: usize) -> (r: &StateCommit)
        requires
            i < self.commits().len(),
        ensures
            *r == self.commits()[i as int],
    {
        &self.commits[i]
    }
}

impl EvmContext for ScriptedEvm {
    closed spec fn env(&self) -> EvmEnv {
        self.env
    }

    closed spec fn commits(&self) -> Seq<StateCommit> {
        self.commits@
    }

    fn env_snapshot(&self) -> (e: EvmEnv) {
        self.env
    }

    fn set_env(&mut self, e: EvmEnv) {
        self.env = e;
    }

    fn fill_tx_env_system_contract_call(
        &mut self,
        caller: Address,
        contract: Address,
        data: SystemCallData,
    ) {
        self.env = EvmEnv { tx: TxEnv::SystemCall { caller, contract, data }, ..self.env };
    }

    fn block_coinbase(&self) -> (a: Address) {
        self.env.block.coinbase
    }

    fn transact(&mut self) -> (r: Result<ResultAndState, EvmError>) {
        if self.script.len() == 0 {
            Err(EvmError::Internal)
        } else {
            self.script.remove(0)
        }
    }

    fn commit(&mut self, state: StateDiff) {
        self.commits.push(StateCommit::Diff(state));
    }

    fn increment_balances(&mut self, increments: Vec<(Address, u128)>) -> (r: Result<
        (),
        ProviderError,
    >) {
        self.commits.push(StateCommit::BalanceIncrements(increments));
        Ok(())
    }

    fn merge_and_take_bundle(&mut self) -> (b: BundleState) {
        let commits = self.commits.split_off(0);
        proof {
            assert(self.commits@ =~= Seq::<StateCommit>::empty());
            assert(commits@ =~= old(self).commits@);
        }
        BundleState { commits }
    }
}

} // verus!
