//! The block builder: drives transaction selection and execution,
//! enforces the gas and blob-gas budgets, accumulates receipts, applies
//! withdrawals, computes the header commitments and seals the pending
//! block.

use vstd::prelude::*;
use crate::best::BestTransactionsWithFees;
use crate::chain::{ChainSpec, SpecId};
use crate::evm::{BlockEnv, CfgEnv, EvmContext, EvmEnv, EvmError, InvalidTransaction, TxEnv};
use crate::header::{Bloom, Header, SealedHeader};
use crate::primitives::{Address, B256, U256};
use crate::state::{AccountChange, BundleState, StateCommit, StateDiff, StateReader};
use crate::system_calls::{BlockExecutionError, Request};
use crate::tx::{ExecutionResult, PoolTransaction, Receipt};

verus! {

/// A beacon-chain withdrawal credited at the end of block processing.
#[derive(Clone, Copy, PartialEq, Eq, Structural, Debug)]
pub struct Withdrawal {
    pub index: u64,
    pub validator_index: u64,
    pub address: Address,
    /// Amount in gwei.
    pub amount: u64,
}

/// Wei per gwei.
pub const GWEI_TO_WEI: u64 = 1000000000;

/// A sealed block: its header carries the hash.
#[derive(Clone, PartialEq, Eq, Debug)]
pub struct SealedBlock {
    pub header: SealedHeader,
    pub body: Vec<PoolTransaction>,
    pub ommers: Vec<Header>,
    pub withdrawals: Option<Vec<Withdrawal>>,
    pub requests: Option<Vec<Request>>,
}

/// A sealed block with the recovered sender of each transaction.
#[derive(Clone, PartialEq, Eq, Debug)]
pub struct SealedBlockWithSenders {
    pub block: SealedBlock,
    pub senders: Vec<Address>,
}

/// A locally built pending block cached for a short validity window.
#[derive(Clone, PartialEq, Eq, Debug)]
pub struct PendingBlock {
    pub block: SealedBlockWithSenders,
    /// Millisecond timestamp after which the cached block is stale.
    pub expires_at: u64,
}

/// Where the pending-block environment came from: the consensus layer's
/// actual pending block, or the latest header with derived child values.
#[derive(Clone, PartialEq, Eq, Debug)]
pub enum PendingBlockEnvOrigin {
    ActualPending(SealedBlockWithSenders),
    DerivedFromLatest(SealedHeader),
}

impl PendingBlockEnvOrigin {
    pub open spec fn is_actual_pending_spec(self) -> bool {
        self is ActualPending
    }

    /// Whether the origin is the consensus layer's actual pending block.
    pub fn is_actual_pending(&self) -> (r: bool)
        ensures
            r == self.is_actual_pending_spec(),
    {
        match self {
            PendingBlockEnvOrigin::ActualPending(_) => true,
            PendingBlockEnvOrigin::DerivedFromLatest(_) => false,
        }
    }

    /// The hash of the block the build targets as its parent: for the
    /// actual pending block its parent, else the latest block itself.
    pub open spec fn spec_build_target_hash(self) -> B256 {
        match self {
            PendingBlockEnvOrigin::ActualPending(b) => b.block.header.header.parent_hash,
            PendingBlockEnvOrigin::DerivedFromLatest(h) => h.hash,
        }
    }

    pub fn build_target_hash(&self) -> (r: B256)
        ensures
            r == self.spec_build_target_hash(),
    {
        match self {
            PendingBlockEnvOrigin::ActualPending(b) => b.block.header.header.parent_hash,
            PendingBlockEnvOrigin::DerivedFromLatest(h) => h.hash,
        }
    }

    /// The parent beacon block root the consensus layer supplied, if the
    /// origin is the actual pending block.
    pub open spec fn spec_parent_beacon_block_root(self) -> Option<B256> {
        match self {
            PendingBlockEnvOrigin::ActualPending(b) => (
            b.block.header.header.parent_beacon_block_root),
            PendingBlockEnvOrigin::DerivedFromLatest(_) => None,
        }
    }
}

/// The environment of one build attempt.
#[derive(Clone, PartialEq, Eq, Debug)]
pub struct PendingBlockEnv {
    pub cfg: CfgEnv,
    pub block_env: BlockEnv,
    pub origin: PendingBlockEnvOrigin,
}

/// The commitment computations the builder delegates: Merkle roots over
/// transactions and receipts, the log bloom, and header hashing. Each is
/// a function of its input alone.
pub trait HeaderCommitments {
    /// The transactions-root of a body.
    spec fn spec_transactions_root(&self, txs: Seq<PoolTransaction>) -> B256;

    /// The receipts-root of a receipt list.
    spec fn spec_receipts_root(&self, receipts: Seq<Receipt>) -> B256;

    /// The log bloom of a receipt list.
    spec fn spec_logs_bloom(&self, receipts: Seq<Receipt>) -> Bloom;

    /// The hash of a header.
    spec fn spec_header_hash(&self, header: Header) -> B256;

    /// Compute the transactions-root.
    fn calculate_transaction_root(&self, txs: &Vec<PoolTransaction>) -> (r: B256)
        ensures
            r == self.spec_transactions_root(txs@),
    ;

    /// Compute the receipts-root.
    fn calculate_receipts_root(&self, receipts: &Vec<Receipt>) -> (r: B256)
        ensures
            r == self.spec_receipts_root(receipts@),
    ;

    /// Compute the log bloom.
    fn calculate_logs_bloom(&self, receipts: &Vec<Receipt>) -> (r: Bloom)
        ensures
            r == self.spec_logs_bloom(receipts@),
    ;

    /// Hash a header for sealing.
    fn seal(&self, header: &Header) -> (r: B256)
        ensures
            r == self.spec_header_hash(*header),
    ;
}

/// Commitments that hash everything to zero: the reference
/// implementation for tests and demos.
#[derive(Clone, Copy, PartialEq, Eq, Structural, Debug)]
pub struct MockCommitments;

impl HeaderCommitments for MockCommitments {
    closed spec fn spec_transactions_root(&self, txs: Seq<PoolTransaction>) -> B256 {
        B256::zero_spec()
    }

    closed spec fn spec_receipts_root(&self, receipts: Seq<Receipt>) -> B256 {
        B256::zero_spec()
    }

    closed spec fn spec_logs_bloom(&self, receipts: Seq<Receipt>) -> Bloom {
        Bloom::zero_spec()
    }

    closed spec fn spec_header_hash(&self, header: Header) -> B256 {
        B256::zero_spec()
    }

    fn calculate_transaction_root(&self, txs: &Vec<PoolTransaction>) -> (r: B256) {
        B256::zero()
    }

    fn calculate_receipts_root(&self, receipts: &Vec<Receipt>) -> (r: B256) {
        B256::zero()
    }

    fn calculate_logs_bloom(&self, receipts: &Vec<Receipt>) -> (r: Bloom) {
        Bloom::zero()
    }

    fn seal(&self, header: &Header) -> (r: B256) {
        B256::zero()
    }
}

/// The wei credited to `a` by a withdrawal list.
pub open spec fn spec_withdrawal_wei(ws: Seq<Withdrawal>, a: Address) -> int
    decreases ws.len(),
{
    if ws.len() == 0 {
        0
    } else {
        spec_withdrawal_wei(ws.drop_last(), a) + (if ws.last().address == a {
            ws.last().amount * GWEI_TO_WEI
        } else {
            0
        })
    }
}

/// The total credited to `a` by an increments list.
pub open spec fn spec_total_of(incs: Seq<(Address, u128)>, a: Address) -> int
    decreases incs.len(),
{
    if incs.len() == 0 {
        0
    } else {
        spec_total_of(incs.drop_last(), a) + (if incs.last().0 == a {
            incs.last().1
        } else {
            0
        })
    }
}

/// Updating one entry changes only its own address's total.
proof fn lemma_total_update(incs: Seq<(Address, u128)>, i: int, v: u128, a: Address)
    requires
        0 <= i < incs.len(),
    ensures
        spec_total_of(incs.update(i, (incs[i].0, v)), a) == spec_total_of(incs, a) + (if incs[i].0
            == a {
            v - incs[i].1
        } else {
            0
        }),
    decreases incs.len(),
{
    let upd = incs.update(i, (incs[i].0, v));
    if i == incs.len() - 1 {
        assert(upd.drop_last() =~= incs.drop_last());
        assert(upd.last() == (incs[i].0, v));
    } else {
        assert(upd.drop_last() =~= incs.drop_last().update(i, (incs[i].0, v)));
        assert(upd.last() == incs.last());
        lemma_total_update(incs.drop_last(), i, v, a);
    }
}

/// A withdrawal list credits nothing to an address it does not name.
proof fn lemma_wei_bound(ws: Seq<Withdrawal>, a: Address)
    ensures
        0 <= spec_withdrawal_wei(ws, a) <= ws.len() * (0xffffffffffffffff * 1000000000),
    decreases ws.len(),
{
    if ws.len() > 0 {
        lemma_wei_bound(ws.drop_last(), a);
        assert(ws.last().amount * GWEI_TO_WEI <= 0xffffffffffffffff * 1000000000) by (
        nonlinear_arith)
            requires
                ws.last().amount <= 0xffffffffffffffff,
        ;
        assert((ws.len() - 1) * (0xffffffffffffffff * 1000000000) + (0xffffffffffffffff
            * 1000000000) == ws.len() * (0xffffffffffffffff * 1000000000)) by (nonlinear_arith);
    }
}

/// Compute the withdrawal-induced balance increments: one entry per
/// credited address, in first-appearance order. Before Shanghai there
/// are no withdrawals to credit. Zero amounts are skipped, so every
/// entry is positive.
pub fn post_block_withdrawals_balance_increments(
    chain_spec: &ChainSpec,
    block_timestamp: u64,
    withdrawals: &Vec<Withdrawal>,
) -> (r: Vec<(Address, u128)>)
    requires
        withdrawals@.len() <= 0x100000000,
    ensures
        !chain_spec.is_shanghai_active_at_timestamp_spec(block_timestamp) ==> r@.len() == 0,
        chain_spec.is_shanghai_active_at_timestamp_spec(block_timestamp) ==> (forall|a: Address|
            spec_total_of(r@, a) == spec_withdrawal_wei(withdrawals@, a)),
        forall|i: int, j: int| #![trigger r@[i], r@[j]] 0 <= i < j < r@.len() ==> r@[i].0 != r@[j].0,
{
    let mut out: Vec<(Address, u128)> = Vec::new();
    if !chain_spec.is_shanghai_active_at_timestamp(block_timestamp) {
        return out;
    }
    let mut k: usize = 0;
    proof {
        assert(withdrawals@.subrange(0, 0) =~= Seq::<Withdrawal>::empty());
    }
    while k < withdrawals.len()
        invariant
            k <= withdrawals@.len(),
            withdrawals@.len() <= 0x100000000,
            forall|a: Address|
                spec_total_of(out@, a) == spec_withdrawal_wei(
                    withdrawals@.subrange(0, k as int),
                    a,
                ),
            forall|i: int, j: int| #![trigger out@[i], out@[j]]
                0 <= i < j < out@.len() ==> out@[i].0 != out@[j].0,
            forall|i: int|
                0 <= i < out@.len() ==> (#[trigger] out@[i]).1 == spec_total_of(out@, out@[i].0),
        decreases withdrawals@.len() - k,
    {
        let w = withdrawals[k];
        proof {
            assert(withdrawals@.subrange(0, k as int + 1).drop_last() =~= withdrawals@.subrange(
                0,
                k as int,
            ));
            assert(withdrawals@.subrange(0, k as int + 1).last() == withdrawals@[k as int]);
        }
        if w.amount > 0 {
            let wei: u128 = (w.amount as u128) * (GWEI_TO_WEI as u128);
            let found = find_increment(&out, w.address);
            match found {
                Some(fi) => {
                    let ghost oldout = out@;
                    let cur = out[fi].1;
                    proof {
                        lemma_wei_bound(withdrawals@.subrange(0, k as int), w.address);
                        assert(cur == spec_total_of(oldout, w.address));
                        assert(withdrawals@.subrange(0, k as int).len() * (0xffffffffffffffff
                            * 1000000000) <= 0x100000000 * (0xffffffffffffffff * 1000000000)) by (
                        nonlinear_arith)
                            requires
                                withdrawals@.subrange(0, k as int).len() <= 0x100000000,
                        ;
                        assert(cur <= 0x100000000 * (0xffffffffffffffff * 1000000000));
                    }
                    let newv = cur + wei;
                    out.set(fi, (w.address, newv));
                    proof {
                        assert(oldout[fi as int].0 == w.address);
                        assert(out@ == oldout.update(fi as int, (oldout[fi as int].0, newv)));
                        assert forall|a: Address|
                            spec_total_of(out@, a) == spec_withdrawal_wei(
                                withdrawals@.subrange(0, k as int + 1),
                                a,
                            ) by {
                            lemma_total_update(oldout, fi as int, newv, a);
                        }
                        assert forall|i2: int|
                            0 <= i2 < out@.len() implies (#[trigger] out@[i2]).1 == spec_total_of(
                            out@,
                            out@[i2].0,
                        ) by {
                            lemma_total_update(oldout, fi as int, newv, out@[i2].0);
                        }
                    }
                },
                None => {
                    let ghost oldout = out@;
                    out.push((w.address, wei));
                    proof {
                        assert(out@.drop_last() =~= oldout);
                        assert(out@.last() == (w.address, wei));
                        assert(wei == w.amount * GWEI_TO_WEI);
                        assert forall|a: Address|
                            spec_total_of(out@, a) == spec_withdrawal_wei(
                                withdrawals@.subrange(0, k as int + 1),
                                a,
                            ) by {
                            assert(spec_total_of(oldout, a) == spec_withdrawal_wei(
                                withdrawals@.subrange(0, k as int),
                                a,
                            ));
                            assert(spec_total_of(out@, a) == spec_total_of(oldout, a) + (
                            if w.address == a {
                                wei as int
                            } else {
                                0
                            }));
                            assert(spec_withdrawal_wei(withdrawals@.subrange(0, k as int + 1), a)
                                == spec_withdrawal_wei(withdrawals@.subrange(0, k as int), a) + (
                            if w.address == a {
                                w.amount * GWEI_TO_WEI
                            } else {
                                0
                            }));
                            if a == w.address {
                                assert(spec_total_of(oldout, a) == 0) by {
                                    lemma_total_absent(oldout, a);
                                }
                            }
                        }
                        assert forall|i2: int|
                            0 <= i2 < out@.len() implies (#[trigger] out@[i2]).1 == spec_total_of(
                            out@,
                            out@[i2].0,
                        ) by {
                            if i2 < oldout.len() {
                                assert(out@[i2] == oldout[i2]);
                            } else {
                                assert(out@[i2] == (w.address, wei));
                                lemma_total_absent(oldout, w.address);
                            }
                        }
                    }
                },
            }
        }
        k = k + 1;
    }
    proof {
        assert(withdrawals@.subrange(0, k as int) =~= withdrawals@);
    }
    out
}

/// Find the entry of an address in an increments list.
fn find_increment(out: &Vec<(Address, u128)>, a: Address) -> (r: Option<usize>)
    ensures
        r matches Some(i) ==> i < out@.len() && out@[i as int].0 == a,
        r is None ==> forall|j: int| 0 <= j < out@.len() ==> (#[trigger] out@[j]).0 != a,
{
    let mut i: usize = 0;
    while i < out.len()
        invariant
            i <= out@.len(),
            forall|j: int| 0 <= j < i ==> (#[trigger] out@[j]).0 != a,
        decreases out@.len() - i,
    {
        if out[i].0 == a {
            return Some(i);
        }
        i = i + 1;
    }
    None
}

/// An address that appears in no entry has total zero.
proof fn lemma_total_absent(incs: Seq<(Address, u128)>, a: Address)
    requires
        forall|j: int| 0 <= j < incs.len() ==> (#[trigger] incs[j]).0 != a,
    ensures
        spec_total_of(incs, a) == 0,
    decreases incs.len(),
{
    if incs.len() > 0 {
        assert(incs.last() == incs[incs.len() - 1]);
        lemma_total_absent(incs.drop_last(), a);
    }
}

/// The blob gas the EIP-4844 transactions of a body consume.
pub open spec fn spec_blob_gas(txs: Seq<PoolTransaction>) -> int
    decreases txs.len(),
{
    if txs.len() == 0 {
        0
    } else {
        spec_blob_gas(txs.drop_last()) + (if txs.last().kind == crate::tx::TxKind::Eip4844 {
            txs.last().blob_gas as int
        } else {
            0
        })
    }
}

/// The withdrawal list the build origin carries; empty when the origin
/// is derived from the latest header or the pending block has none.
pub open spec fn spec_origin_withdrawals(origin: PendingBlockEnvOrigin) -> Seq<Withdrawal> {
    match origin {
        PendingBlockEnvOrigin::ActualPending(pb) => match pb.block.withdrawals {
            Some(ws) => ws@,
            None => Seq::empty(),
        },
        PendingBlockEnvOrigin::DerivedFromLatest(_) => Seq::empty(),
    }
}

/// A prefix stays a prefix when the longer ledger grows.
proof fn lemma_commits_prefix_push(a: Seq<StateCommit>, b: Seq<StateCommit>, x: StateCommit)
    requires
        a.is_prefix_of(b),
    ensures
        a.is_prefix_of(b.push(x)),
{
    assert(b.push(x).subrange(0, a.len() as int) =~= a);
}

/// A transaction executed earlier in the build and the wrapper's latest
/// yield are different transactions, so their hashes differ.
proof fn lemma_body_hash_distinct(
    w: BestTransactionsWithFees,
    executed: Seq<PoolTransaction>,
    positions: Seq<int>,
    y: PoolTransaction,
    i: int,
)
    requires
        w.wf_fees(),
        w.inner().wf(),
        w.accepted_view().len() > 0,
        w.accepted_view().last() == y,
        0 <= i < executed.len(),
        positions.len() == executed.len(),
        0 <= positions[i] < w.accepted_view().len() - 1,
        w.accepted_view()[positions[i]] == executed[i],
        crate::best::in_all_tx(w.inner().all_view(), executed[i]),
        crate::best::in_all_tx(w.inner().all_view(), y),
    ensures
        executed[i].hash != y.hash,
{
    assert(w.accepted_view().last() == w.accepted_view()[w.accepted_view().len() - 1]);
    if executed[i].sender == y.sender {
        crate::best::lemma_fee_wrapper_flat_order(
            w,
            y.sender,
            positions[i],
            w.accepted_view().len() - 1,
        );
    }
    if executed[i].hash == y.hash {
        crate::best::lemma_wf_hash_identifies(w.inner(), executed[i], y);
    }
}

/// Whether a cached pending block may be served: it continues the same
/// parent at the same height and its validity window has not passed.
pub fn use_cached_pending_block(
    cached: &Option<PendingBlock>,
    env_number: u64,
    parent_hash: B256,
    now: u64,
) -> (r: bool)
    ensures
        r == match cached {
            Some(pb) => env_number == pb.block.block.header.header.number && parent_hash
                == pb.block.block.header.header.parent_hash && now <= pb.expires_at,
            None => false,
        },
{
    match cached {
        Some(pb) => env_number == pb.block.block.header.header.number && parent_hash
            == pb.block.block.header.header.parent_hash && now <= pb.expires_at,
        None => false,
    }
}


/// The storage slot of the EIP-2935 ring buffer that holds the parent
/// hash of block `block_number`.
pub open spec fn spec_blockhash_slot(block_number: u64) -> B256 {
    B256::from_u64_spec(((block_number - 1) % (crate::primitives::BLOCKHASH_SERVE_WINDOW as int)) as u64)
}

/// Record the parent hash into the EIP-2935 block-hash history: active
/// from Prague, a no-op before it and at genesis.
pub fn pre_block_blockhashes_update<E: EvmContext>(
    evm: &mut E,
    chain_spec: &ChainSpec,
    block_timestamp: u64,
    block_number: u64,
    parent_hash: B256,
) -> (r: Result<(), BlockExecutionError>)
    ensures
        r is Ok,
        final(evm).env() == old(evm).env(),
        (!chain_spec.is_prague_active_at_timestamp_spec(block_timestamp) || block_number == 0)
            ==> final(evm).commits() == old(evm).commits(),
        (chain_spec.is_prague_active_at_timestamp_spec(block_timestamp) && block_number != 0) ==> {
            &&& final(evm).commits().len() == old(evm).commits().len() + 1
            &&& final(evm).commits().drop_last() == old(evm).commits()
            &&& (final(evm).commits().last() matches crate::state::StateCommit::Diff(d)
                && d.entries@.len() == 1 && d.entries@[0].address
                == crate::primitives::history_storage_address_spec() && d.entries@[0].info is None
                && d.entries@[0].storage@ == seq![(spec_blockhash_slot(block_number), parent_hash)])
        },
{
    if !chain_spec.is_prague_active_at_timestamp(block_timestamp) || block_number == 0 {
        return Ok(());
    }
    let slot = B256::from_u64((block_number - 1) % crate::primitives::BLOCKHASH_SERVE_WINDOW);
    let mut storage: Vec<(B256, B256)> = Vec::new();
    storage.push((slot, parent_hash));
    let mut entries: Vec<AccountChange> = Vec::new();
    entries.push(
        AccountChange {
            address: crate::primitives::history_storage_address(),
            info: None,
            storage,
        },
    );
    proof {
        assert(entries@[0].storage@ =~= seq![(spec_blockhash_slot(block_number), parent_hash)]);
    }
    evm.commit(StateDiff { entries });
    Ok(())
}

/// Assemble the receipt of one executed transaction.
pub fn assemble_receipt(tx: &PoolTransaction, result: ExecutionResult, cumulative_gas_used: u64)
    -> (r: Receipt)
    ensures
        r.tx_type == tx.kind,
        r.success == result.is_success_spec(),
        r.cumulative_gas_used == cumulative_gas_used,
        r.logs@ == result.logs_spec(),
{
    let success = result.is_success();
    Receipt { tx_type: tx.kind, success, cumulative_gas_used, logs: result.into_logs() }
}

/// A receipt list that accounts for `total_gas`: the cumulative gas is
/// non-decreasing and ends at the block's total.
pub open spec fn receipts_wf(rs: Seq<Receipt>, total_gas: u64) -> bool {
    &&& (forall|i: int, j: int| #![trigger rs[i], rs[j]]
        0 <= i < j < rs.len() ==> rs[i].cumulative_gas_used <= rs[j].cumulative_gas_used)
    &&& (rs.len() == 0 ==> total_gas == 0)
    &&& (rs.len() > 0 ==> rs.last().cumulative_gas_used == total_gas)
}

/// Build one pending block: apply the pre-block system calls, pull
/// transactions from the fee-filtered iterator until the gas and
/// blob-gas budgets are exhausted, execute and commit each, credit the
/// withdrawals, compute the commitments and seal the block.
///
/// Per-transaction failures never abort the build: an invalid
/// transaction is marked (pruning its descendants) and selection
/// continues; a nonce-too-low failure is skipped silently. Provider and
/// EVM-internal failures abort the build.
#[verifier::rlimit(40)]
pub fn build_block<E: EvmContext, C: HeaderCommitments, S: StateReader>(
    env: PendingBlockEnv,
    chain_spec: &ChainSpec,
    provider: &S,
    evm: &mut E,
    commitments: &C,
    best_txs: &mut BestTransactionsWithFees,
) -> (r: Result<SealedBlockWithSenders, BlockExecutionError>)
    requires
        old(best_txs).base_fee_view() == env.block_env.basefee,
        old(best_txs).base_fee_per_blob_gas_view() as int == (
        match env.block_env.spec_blob_gasprice() {
            Some(p) => (#[verifier::truncate] (p as u64)) as int,
            None => 0,
        }),
        match env.origin {
            PendingBlockEnvOrigin::ActualPending(ref b) => (match b.block.withdrawals {
                Some(ref ws) => ws@.len() <= 0x100000000,
                None => true,
            }),
            PendingBlockEnvOrigin::DerivedFromLatest(_) => true,
        },
    ensures
        r matches Ok(sb) ==> {
            let h = sb.block.header.header;
            &&& sb.block.header.hash == commitments.spec_header_hash(h)
            &&& h.parent_hash == env.origin.spec_build_target_hash()
            &&& h.ommers_hash == crate::primitives::empty_ommer_root_hash_spec()
            &&& h.beneficiary == env.block_env.coinbase
            &&& h.transactions_root == commitments.spec_transactions_root(sb.block.body@)
            &&& h.timestamp == env.block_env.timestamp
            &&& h.mix_hash == (match env.block_env.prevrandao {
                Some(p) => p,
                None => B256::zero_spec(),
            })
            &&& h.nonce == crate::primitives::BEACON_NONCE
            &&& h.base_fee_per_gas == Some(env.block_env.basefee)
            &&& h.number == env.block_env.number
            &&& h.gas_limit == env.block_env.gas_limit
            &&& h.difficulty == U256::zero_spec()
            &&& h.gas_used <= h.gas_limit
            &&& h.excess_blob_gas == env.block_env.spec_blob_excess_gas()
            &&& h.extra_data@.len() == 0
            &&& (h.blob_gas_used matches Some(b) ==> b
                <= crate::primitives::MAX_DATA_GAS_PER_BLOCK)
            &&& (h.blob_gas_used is Some <==> env.cfg.spec_id.rank_spec()
                >= SpecId::Cancun.rank_spec())
            &&& h.parent_beacon_block_root == (if env.origin.is_actual_pending_spec() {
                env.origin.spec_parent_beacon_block_root()
            } else {
                None
            })
            &&& (chain_spec.is_prague_active_at_timestamp_spec(env.block_env.timestamp)
                ==> h.requests_root == Some(crate::primitives::empty_root_hash_spec())
                && (sb.block.requests matches Some(rq) && rq@.len() == 0))
            &&& (!chain_spec.is_prague_active_at_timestamp_spec(env.block_env.timestamp)
                ==> h.requests_root is None && sb.block.requests is None)
            &&& sb.senders@ == sb.block.body@.map_values(|t: PoolTransaction| t.sender)
            &&& (forall|i: int|
                0 <= i < sb.block.body@.len() ==> crate::best::fee_ok(
                    #[trigger] sb.block.body@[i],
                    env.block_env.basefee,
                    old(best_txs).base_fee_per_blob_gas_view(),
                ) && !sb.block.body@[i].is_private)
            &&& (exists|rs: Seq<Receipt>|
                #[trigger] receipts_wf(rs, h.gas_used) && rs.len() == sb.block.body@.len()
                    && h.receipts_root == commitments.spec_receipts_root(rs) && h.logs_bloom
                    == commitments.spec_logs_bloom(rs))
            &&& (exists|b: BundleState| h.state_root == provider.spec_state_root(b))
            &&& (h.withdrawals_root == (match env.origin {
                PendingBlockEnvOrigin::ActualPending(ref pb) => (
                pb.block.header.header.withdrawals_root),
                PendingBlockEnvOrigin::DerivedFromLatest(_) => None,
            }))
            &&& (match env.origin {
                PendingBlockEnvOrigin::ActualPending(ref pb) => (match pb.block.withdrawals {
                    Some(ref ws) => (sb.block.withdrawals matches Some(out) && out@ == ws@),
                    None => sb.block.withdrawals is None,
                }),
                PendingBlockEnvOrigin::DerivedFromLatest(_) => sb.block.withdrawals is None,
            })
            &&& (env.cfg.spec_id.rank_spec() >= SpecId::Cancun.rank_spec() ==> (
            h.blob_gas_used matches Some(b) && b == spec_blob_gas(sb.block.body@)))
            &&& final(evm).commits() == Seq::<StateCommit>::empty()
            &&& (exists|b: BundleState|
                #[trigger] b.commits@.len() > old(evm).commits().len() && h.state_root
                    == provider.spec_state_root(b) && old(evm).commits().is_prefix_of(b.commits@)
                    && (b.commits@.last() matches StateCommit::BalanceIncrements(incs) && (
                    chain_spec.is_shanghai_active_at_timestamp_spec(env.block_env.timestamp)
                        ==> (forall|a: Address|
                        spec_total_of(incs@, a) == spec_withdrawal_wei(
                            spec_origin_withdrawals(env.origin),
                            a,
                        ))) && (!chain_spec.is_shanghai_active_at_timestamp_spec(
                        env.block_env.timestamp,
                    ) ==> incs@.len() == 0)))
        },
        env.origin.is_actual_pending_spec() && chain_spec.is_cancun_active_at_timestamp_spec(
            env.block_env.timestamp,
        ) && env.origin.spec_parent_beacon_block_root() is None ==> r == Err::<
            SealedBlockWithSenders,
            BlockExecutionError,
        >(
            crate::system_calls::BlockExecutionError::Validation(
                crate::system_calls::BlockValidationError::MissingParentBeaconBlockRoot,
            ),
        ),
        env.origin.is_actual_pending_spec() && chain_spec.is_cancun_active_at_timestamp_spec(
            env.block_env.timestamp,
        ) && env.block_env.number == 0 ==> (env.origin.spec_parent_beacon_block_root()
            matches Some(root) ==> (root != B256::zero_spec() ==> r == Err::<
            SealedBlockWithSenders,
            BlockExecutionError,
        >(
            crate::system_calls::BlockExecutionError::Validation(
                crate::system_calls::BlockValidationError::CancunGenesisParentBeaconBlockRootNotZero {
                    parent_beacon_block_root: root,
                },
            ),
        ))),
        !env.origin.is_actual_pending_spec() ==> (r matches Err(e) ==> (e is Provider
            || e is Evm)),
        old(best_txs).wf_fees() && old(best_txs).inner().wf() && old(
            best_txs,
        ).inner().no_channel() ==> (r matches Ok(sb) ==> (forall|i: int|
            0 <= i < sb.block.body@.len() ==> !final(best_txs).inner().is_invalid(
                (#[trigger] sb.block.body@[i]).hash,
            ))),
        old(best_txs).wf_fees() && old(best_txs).inner().wf() && old(
            best_txs,
        ).inner().no_channel() ==> (r matches Ok(sb) ==> (forall|i: int, j: int|
            #![trigger sb.block.body@[i], sb.block.body@[j]]
            0 <= i < j < sb.block.body@.len() && sb.block.body@[i].sender
                == sb.block.body@[j].sender ==> sb.block.body@[i].nonce
                < sb.block.body@[j].nonce)),
{
    let PendingBlockEnv { cfg, block_env, origin } = env;
    let parent_hash = origin.build_target_hash();

    let mut cumulative_gas_used: u64 = 0;
    let mut sum_blob_gas_used: u64 = 0;
    let block_gas_limit: u64 = block_env.gas_limit;
    let base_fee: u64 = block_env.basefee;
    let block_number: u64 = block_env.number;

    let mut executed_txs: Vec<PoolTransaction> = Vec::new();
    let mut senders: Vec<Address> = Vec::new();
    let mut receipts: Vec<Receipt> = Vec::new();

    let (withdrawals, withdrawals_root) = match origin {
        PendingBlockEnvOrigin::ActualPending(ref b) => (
            match b.block.withdrawals {
                Some(ref ws) => {
                    let mut copy: Vec<Withdrawal> = Vec::new();
                    let mut wi: usize = 0;
                    while wi < ws.len()
                        invariant
                            wi <= ws@.len(),
                            copy@ == ws@.subrange(0, wi as int),
                        decreases ws@.len() - wi,
                    {
                        copy.push(ws[wi]);
                        proof {
                            assert(copy@ =~= ws@.subrange(0, wi as int + 1));
                        }
                        wi = wi + 1;
                    }
                    proof {
                        assert(copy@ =~= ws@);
                    }
                    (Some(copy), b.block.header.header.withdrawals_root)
                },
                None => (None, b.block.header.header.withdrawals_root),
            }
        ),
        PendingBlockEnvOrigin::DerivedFromLatest(_) => (None, None),
    };

    evm.set_env(EvmEnv { cfg, block: block_env, tx: TxEnv::Unset });

    let ghost commits_at_entry = old(evm).commits();
    let parent_beacon_block_root = if origin.is_actual_pending() {
        let root = match origin {
            PendingBlockEnvOrigin::ActualPending(ref b) => (
            b.block.header.header.parent_beacon_block_root),
            PendingBlockEnvOrigin::DerivedFromLatest(_) => None,
        };
        let ghost commits_before = evm.commits();
        match crate::system_calls::apply_beacon_root_contract_call(
            chain_spec,
            block_env.timestamp,
            block_number,
            root,
            evm,
        ) {
            Ok(()) => {},
            Err(e) => {
                return Err(e);
            },
        }
        proof {
            if evm.commits() != commits_before {
                assert(evm.commits() =~= commits_before.push(evm.commits().last()));
                lemma_commits_prefix_push(
                    commits_at_entry,
                    commits_before,
                    evm.commits().last(),
                );
            }
        }
        root
    } else {
        None
    };

    let ghost commits_before_hashes = evm.commits();
    match pre_block_blockhashes_update(
        evm,
        chain_spec,
        block_env.timestamp,
        block_number,
        parent_hash,
    ) {
        Ok(()) => {},
        Err(e) => {
            return Err(e);
        },
    }
    proof {
        if evm.commits() != commits_before_hashes {
            assert(evm.commits() =~= commits_before_hashes.push(evm.commits().last()));
            lemma_commits_prefix_push(
                commits_at_entry,
                commits_before_hashes,
                evm.commits().last(),
            );
        }
    }

    proof {
        assert(old(evm).commits().is_prefix_of(old(evm).commits())) by {
            assert(old(evm).commits().subrange(0, old(evm).commits().len() as int) =~= old(
                evm,
            ).commits());
        }
    }
    let ghost blob_cap = old(best_txs).base_fee_per_blob_gas_view();
    let ghost ordered = old(best_txs).wf_fees() && old(best_txs).inner().wf() && old(
        best_txs,
    ).inner().no_channel();
    let ghost mut positions: Seq<int> = Seq::empty();
    let mut fuel: u64 = u64::MAX;
    loop
        invariant
            best_txs.base_fee_view() == base_fee,
            best_txs.base_fee_per_blob_gas_view() == blob_cap,
            cumulative_gas_used <= block_gas_limit,
            sum_blob_gas_used <= crate::primitives::MAX_DATA_GAS_PER_BLOCK,
            sum_blob_gas_used == spec_blob_gas(executed_txs@),
            old(evm).commits().is_prefix_of(evm.commits()),
            !(env.origin.is_actual_pending_spec()
                && chain_spec.is_cancun_active_at_timestamp_spec(env.block_env.timestamp)
                && env.origin.spec_parent_beacon_block_root() is None),
            env.origin.is_actual_pending_spec() && chain_spec.is_cancun_active_at_timestamp_spec(
                env.block_env.timestamp,
            ) && env.block_env.number == 0 ==> (env.origin.spec_parent_beacon_block_root()
                matches Some(root) ==> root == B256::zero_spec()),
            receipts@.len() == executed_txs@.len(),
            senders@.len() == executed_txs@.len(),
            senders@ == executed_txs@.map_values(|t: PoolTransaction| t.sender),
            receipts_wf(receipts@, cumulative_gas_used),
            forall|i: int|
                0 <= i < executed_txs@.len() ==> crate::best::fee_ok(
                    #[trigger] executed_txs@[i],
                    base_fee,
                    blob_cap,
                ) && !executed_txs@[i].is_private,
            evm.env() == (EvmEnv { cfg, block: block_env, tx: TxEnv::Unset })
                || evm.env().cfg == cfg && evm.env().block == block_env,
            ordered ==> {
                &&& best_txs.wf_fees()
                &&& best_txs.inner().wf()
                &&& best_txs.inner().no_channel()
                &&& (forall|i: int|
                    0 <= i < executed_txs@.len() ==> !best_txs.inner().is_invalid(
                        (#[trigger] executed_txs@[i]).hash,
                    ))
                &&& (forall|i: int|
                    0 <= i < executed_txs@.len() ==> crate::best::in_all_tx(
                        best_txs.inner().all_view(),
                        #[trigger] executed_txs@[i],
                    ))
                &&& positions.len() == executed_txs@.len()
                &&& (forall|i: int|
                    0 <= i < positions.len() ==> 0 <= #[trigger] positions[i]
                        < best_txs.accepted_view().len())
                &&& (forall|i: int, j: int| #![trigger positions[i], positions[j]]
                    0 <= i < j < positions.len() ==> positions[i] < positions[j])
                &&& (forall|i: int|
                    0 <= i < positions.len() ==> best_txs.accepted_view()[#[trigger] positions[i]]
                        == executed_txs@[i])
            },
        decreases fuel,
    {
        if fuel == 0 {
            break ;
        }
        fuel = fuel - 1;
        let ghost w0 = *best_txs;
        let next_result = best_txs.next();
        proof {
            if ordered {
                // the pull may mark fee-failing or blob-skipped pulls, but
                // never a transaction already placed in the body
                assert forall|i: int|
                    0 <= i < executed_txs@.len() implies !best_txs.inner().is_invalid(
                    (#[trigger] executed_txs@[i]).hash,
                ) by {
                    let e = executed_txs@[i];
                    if best_txs.inner().is_invalid(e.hash) {
                        assert(!w0.inner().is_invalid(e.hash));
                        assert(exists|t: PoolTransaction|
                            crate::best::in_all_tx(w0.inner().all_view(), t) && t.hash == e.hash
                                && (!crate::best::fee_ok(t, w0.base_fee_view(), w0.base_fee_per_blob_gas_view()) || (
                            w0.inner().skip_blobs_view() && t.kind == crate::tx::TxKind::Eip4844
                                && !best_txs.inner().yielded_view().contains(t))));
                        let t = choose|t: PoolTransaction|
                            crate::best::in_all_tx(w0.inner().all_view(), t) && t.hash == e.hash
                                && (!crate::best::fee_ok(t, w0.base_fee_view(), w0.base_fee_per_blob_gas_view()) || (
                            w0.inner().skip_blobs_view() && t.kind == crate::tx::TxKind::Eip4844
                                && !best_txs.inner().yielded_view().contains(t)));
                        crate::best::lemma_wf_hash_identifies(w0.inner(), e, t);
                        if crate::best::fee_ok(t, w0.base_fee_view(), w0.base_fee_per_blob_gas_view()) {
                            assert(w0.accepted_view().contains(e)) by {
                                assert(w0.accepted_view()[positions[i]] == e);
                            }
                            crate::best::lemma_accepted_in_yielded(w0, e);
                            let k = choose|k: int|
                                0 <= k < w0.inner().yielded_view().len()
                                    && w0.inner().yielded_view()[k] == e;
                            assert(best_txs.inner().yielded_view()[k] == e) by {
                                assert(best_txs.inner().yielded_view().subrange(
                                    0,
                                    w0.inner().yielded_view().len() as int,
                                ) == w0.inner().yielded_view());
                            }
                            assert(best_txs.inner().yielded_view().contains(t));
                        }
                    }
                }
            }
        }
        let pool_tx = match next_result {
            None => {
                break ;
            },
            Some(t) => t,
        };
        // budget check: the transaction's whole gas limit must still fit
        let ghost w1 = *best_txs;
        if pool_tx.gas_limit > block_gas_limit || cumulative_gas_used > block_gas_limit
            - pool_tx.gas_limit {
            best_txs.mark_invalid(&pool_tx);
            proof {
                if ordered {
                    assert forall|i: int|
                        0 <= i < executed_txs@.len() implies !best_txs.inner().is_invalid(
                        (#[trigger] executed_txs@[i]).hash,
                    ) by {
                        lemma_body_hash_distinct(
                            w1,
                            executed_txs@,
                            positions,
                            pool_tx,
                            i,
                        );
                    }
                }
            }
            continue ;
        }
        // state changed by private transactions must not leak
        if pool_tx.is_private {
            best_txs.mark_invalid(&pool_tx);
            proof {
                if ordered {
                    assert forall|i: int|
                        0 <= i < executed_txs@.len() implies !best_txs.inner().is_invalid(
                        (#[trigger] executed_txs@[i]).hash,
                    ) by {
                        lemma_body_hash_distinct(
                            w1,
                            executed_txs@,
                            positions,
                            pool_tx,
                            i,
                        );
                    }
                }
            }
            continue ;
        }
        // blob budget check
        if pool_tx.is_eip4844() {
            let tx_blob_gas = pool_tx.blob_gas;
            if (sum_blob_gas_used as u128) + (tx_blob_gas as u128)
                > crate::primitives::MAX_DATA_GAS_PER_BLOCK as u128 {
                best_txs.mark_invalid(&pool_tx);
            proof {
                if ordered {
                    assert forall|i: int|
                        0 <= i < executed_txs@.len() implies !best_txs.inner().is_invalid(
                        (#[trigger] executed_txs@[i]).hash,
                    ) by {
                        lemma_body_hash_distinct(
                            w1,
                            executed_txs@,
                            positions,
                            pool_tx,
                            i,
                        );
                    }
                }
            }
                continue ;
            }
        }
        evm.set_env(EvmEnv { cfg, block: block_env, tx: TxEnv::User(pool_tx) });
        let outcome = evm.transact();
        let res = match outcome {
            Ok(res) => res,
            Err(err) => {
                match err {
                    EvmError::Transaction(tx_err) => {
                        if !matches!(tx_err, InvalidTransaction::NonceTooLow) {
                            best_txs.mark_invalid(&pool_tx);
            proof {
                if ordered {
                    assert forall|i: int|
                        0 <= i < executed_txs@.len() implies !best_txs.inner().is_invalid(
                        (#[trigger] executed_txs@[i]).hash,
                    ) by {
                        lemma_body_hash_distinct(
                            w1,
                            executed_txs@,
                            positions,
                            pool_tx,
                            i,
                        );
                    }
                }
            }
                        }
                        continue ;
                    },
                    other => {
                        return Err(BlockExecutionError::Evm(other));
                    },
                }
            },
        };
        // an executor report beyond the transaction's own gas limit is an
        // internal executor fault; rejecting it keeps the gas budget sound
        let gas_used = res.result.gas_used();
        if gas_used > pool_tx.gas_limit {
            return Err(BlockExecutionError::Evm(EvmError::Internal));
        }
        let ghost commits_before = evm.commits();
        evm.commit(res.state);
        proof {
            lemma_commits_prefix_push(
                old(evm).commits(),
                commits_before,
                StateCommit::Diff(res.state),
            );
        }
        if pool_tx.is_eip4844() {
            sum_blob_gas_used = sum_blob_gas_used + pool_tx.blob_gas;
            if sum_blob_gas_used == crate::primitives::MAX_DATA_GAS_PER_BLOCK {
                best_txs.skip_blobs();
            }
        }
        cumulative_gas_used = cumulative_gas_used + gas_used;
        let receipt = assemble_receipt(&pool_tx, res.result, cumulative_gas_used);
        let ghost oldr = receipts@;
        receipts.push(receipt);
        let ghost exec0 = executed_txs@;
        executed_txs.push(pool_tx);
        senders.push(pool_tx.sender);
        proof {
            assert(executed_txs@.drop_last() =~= exec0);
            assert(executed_txs@.last() == pool_tx);
            assert(sum_blob_gas_used == spec_blob_gas(executed_txs@));
            if ordered {
                positions = positions.push(best_txs.accepted_view().len() - 1);
            }
        }
        proof {
            assert(senders@ =~= executed_txs@.map_values(|t: PoolTransaction| t.sender));
            assert forall|i: int, j: int| #![trigger receipts@[i], receipts@[j]]
                0 <= i < j < receipts@.len() implies receipts@[i].cumulative_gas_used
                <= receipts@[j].cumulative_gas_used by {
                if j < oldr.len() {
                    assert(receipts@[i] == oldr[i] && receipts@[j] == oldr[j]);
                } else {
                    assert(receipts@[j] == receipt);
                    assert(receipts@[i] == oldr[i]);
                    if oldr.len() > 0 {
                        assert(oldr[i].cumulative_gas_used <= oldr.last().cumulative_gas_used);
                    }
                }
            }
        }
    }

    let empty_withdrawals: Vec<Withdrawal> = Vec::new();
    proof {
        assert(empty_withdrawals@ =~= Seq::<Withdrawal>::empty());
    }
    let balance_increments = match withdrawals {
        Some(ref ws) => post_block_withdrawals_balance_increments(
            chain_spec,
            block_env.timestamp,
            ws,
        ),
        None => post_block_withdrawals_balance_increments(
            chain_spec,
            block_env.timestamp,
            &empty_withdrawals,
        ),
    };
    let ghost incs_view = balance_increments@;
    let ghost commits_before_incs = evm.commits();
    match evm.increment_balances(balance_increments) {
        Ok(()) => {},
        Err(e) => {
            return Err(BlockExecutionError::Provider(e));
        },
    }
    proof {
        lemma_commits_prefix_push(
            commits_at_entry,
            commits_before_incs,
            evm.commits().last(),
        );
        assert(evm.commits() == commits_before_incs.push(evm.commits().last()));
    }

    let bundle = evm.merge_and_take_bundle();

    let receipts_root = commitments.calculate_receipts_root(&receipts);
    let logs_bloom = commitments.calculate_logs_bloom(&receipts);

    let state_root = match provider.state_root(&bundle) {
        Ok(root) => root,
        Err(e) => {
            return Err(BlockExecutionError::Provider(e));
        },
    };

    let transactions_root = commitments.calculate_transaction_root(&executed_txs);

    let blob_gas_used = if cfg.spec_id.is_enabled_in(SpecId::Cancun) {
        Some(sum_blob_gas_used)
    } else {
        None
    };

    let (requests, requests_root) = if chain_spec.is_prague_active_at_timestamp(
        block_env.timestamp,
    ) {
        let empty_requests: Vec<Request> = Vec::new();
        (Some(empty_requests), Some(crate::primitives::empty_root_hash()))
    } else {
        (None, None)
    };

    let header = Header {
        parent_hash,
        ommers_hash: crate::primitives::empty_ommer_root_hash(),
        beneficiary: block_env.coinbase,
        state_root,
        transactions_root,
        receipts_root,
        withdrawals_root,
        logs_bloom,
        timestamp: block_env.timestamp,
        mix_hash: match block_env.prevrandao {
            Some(p) => p,
            None => B256::zero(),
        },
        nonce: crate::primitives::BEACON_NONCE,
        base_fee_per_gas: Some(base_fee),
        number: block_number,
        gas_limit: block_gas_limit,
        difficulty: U256::zero(),
        gas_used: cumulative_gas_used,
        blob_gas_used,
        excess_blob_gas: block_env.get_blob_excess_gas(),
        extra_data: Vec::new(),
        parent_beacon_block_root,
        requests_root,
    };

    let hash = commitments.seal(&header);
    let sealed = SealedBlock {
        header: SealedHeader { header, hash },
        body: executed_txs,
        ommers: Vec::new(),
        withdrawals,
        requests,
    };
    proof {
        assert(receipts_wf(receipts@, sealed.header.header.gas_used));
        if ordered {
            assert forall|i: int, j: int|
                #![trigger sealed.body@[i], sealed.body@[j]]
                0 <= i < j < sealed.body@.len() && sealed.body@[i].sender
                    == sealed.body@[j].sender implies sealed.body@[i].nonce
                < sealed.body@[j].nonce by {
                crate::best::lemma_fee_wrapper_flat_order(
                    *best_txs,
                    sealed.body@[i].sender,
                    positions[i],
                    positions[j],
                );
            }
        }
    }
    Ok(SealedBlockWithSenders { block: sealed, senders })
}

} // verus!
