//! Tests of the block builder and the pending-block environment
//! helpers.

use pending_block::best::{BestTransactions, BestTransactionsWithFees};
use pending_block::builder::{
    build_block, post_block_withdrawals_balance_increments, use_cached_pending_block,
    MockCommitments, PendingBlock, PendingBlockEnv, PendingBlockEnvOrigin, Withdrawal,
};
use pending_block::chain::{BaseFeeParams, ChainSpec, SpecId};
use pending_block::evm::{
    BlockEnv, CfgEnv, EvmContext, EvmEnv, EvmError, InvalidTransaction, ResultAndState,
    ScriptedEvm, TxEnv,
};
use pending_block::header::{
    derive_pending_header, next_block_base_fee, next_block_excess_blob_gas, Bloom, Header,
    SealedHeader,
};
use pending_block::primitives::{Address, B256, U256, BEACON_NONCE};
use pending_block::state::{MockStateReader, StateDiff};
use pending_block::system_calls::BlockExecutionError;
use pending_block::tx::{ExecutionResult, PendingTransaction, PoolTransaction, TxKind};

fn addr(n: u128) -> Address {
    Address { hi: 0, lo: n }
}

fn word(n: u64) -> B256 {
    B256 { w0: 0, w1: 0, w2: 0, w3: n }
}

fn test_chain_spec() -> ChainSpec {
    ChainSpec {
        chain_id: 1,
        shanghai_time: Some(0),
        cancun_time: Some(1000),
        prague_time: None,
        base_fee_params: BaseFeeParams { max_change_denominator: 8, elasticity_multiplier: 2 },
    }
}

fn tx(nonce: u64, max_fee: u128, gas_limit: u64) -> PoolTransaction {
    PoolTransaction {
        hash: word(3000 + nonce),
        sender: addr(5),
        nonce,
        gas_limit,
        max_fee_per_gas: max_fee,
        max_fee_per_blob_gas: None,
        kind: TxKind::Eip1559,
        blob_gas: 0,
        is_private: false,
    }
}

fn pending(t: PoolTransaction) -> PendingTransaction {
    PendingTransaction { submission_id: t.nonce, priority: 0, transaction: t }
}

fn block_env() -> BlockEnv {
    BlockEnv {
        number: 8,
        coinbase: addr(0xc0ffee),
        timestamp: 1500,
        prevrandao: Some(word(4)),
        difficulty: U256::zero(),
        basefee: 10,
        gas_limit: 100_000,
        blob_excess_gas_and_price: None,
    }
}

fn success(gas_used: u64) -> Result<ResultAndState, EvmError> {
    Ok(ResultAndState {
        result: ExecutionResult::Success { gas_used, logs: Vec::new(), output: Vec::new() },
        state: StateDiff { entries: Vec::new() },
    })
}

fn build_env() -> PendingBlockEnv {
    let latest = SealedHeader {
        header: Header {
            parent_hash: word(1),
            ommers_hash: word(2),
            beneficiary: addr(1),
            state_root: word(3),
            transactions_root: word(4),
            receipts_root: word(5),
            withdrawals_root: None,
            logs_bloom: Bloom::zero(),
            difficulty: U256::zero(),
            number: 7,
            gas_limit: 100_000,
            gas_used: 0,
            timestamp: 1488,
            mix_hash: word(4),
            nonce: 0,
            base_fee_per_gas: Some(10),
            blob_gas_used: None,
            excess_blob_gas: None,
            parent_beacon_block_root: None,
            requests_root: None,
            extra_data: Vec::new(),
        },
        hash: word(777),
    };
    PendingBlockEnv {
        cfg: CfgEnv { chain_id: 1, spec_id: SpecId::Shanghai },
        block_env: block_env(),
        origin: PendingBlockEnvOrigin::DerivedFromLatest(latest),
    }
}

#[test]
fn builder_accumulates_gas_and_receipts() {
    let spec = test_chain_spec();
    let env = build_env();
    let provider = MockStateReader::empty();
    let mut evm = ScriptedEvm::new(
        EvmEnv { cfg: env.cfg, block: env.block_env, tx: TxEnv::Unset },
        vec![success(21_000), success(30_000), success(21_000)],
    );
    let all = vec![
        pending(tx(0, 15, 21_000)),
        pending(tx(1, 15, 40_000)),
        pending(tx(2, 15, 21_000)),
    ];
    let best = BestTransactions::new(all);
    let mut best = BestTransactionsWithFees::new(best, 10, 0);

    let built = build_block(env, &spec, &provider, &mut evm, &MockCommitments, &mut best).unwrap();
    let header = &built.block.header.header;
    assert_eq!(built.block.body.len(), 3);
    assert_eq!(built.senders, vec![addr(5), addr(5), addr(5)]);
    assert_eq!(header.gas_used, 72_000);
    assert_eq!(header.gas_limit, 100_000);
    assert_eq!(header.number, 8);
    assert_eq!(header.parent_hash, word(777));
    assert_eq!(header.base_fee_per_gas, Some(10));
    assert_eq!(header.nonce, BEACON_NONCE);
    assert_eq!(header.mix_hash, word(4));
    assert_eq!(header.blob_gas_used, None);
    assert_eq!(header.requests_root, None);
    // nonce order of one sender is kept
    assert_eq!(built.block.body[0].nonce, 0);
    assert_eq!(built.block.body[1].nonce, 1);
    assert_eq!(built.block.body[2].nonce, 2);
}

#[test]
fn builder_skips_transaction_beyond_gas_budget() {
    let spec = test_chain_spec();
    let env = build_env();
    let provider = MockStateReader::empty();
    let mut evm = ScriptedEvm::new(
        EvmEnv { cfg: env.cfg, block: env.block_env, tx: TxEnv::Unset },
        vec![success(21_000)],
    );
    // the first transaction's gas limit exceeds the block budget; its
    // descendants are pruned with it, the other sender still fits
    let heavy = tx(0, 15, 200_000);
    let mut light = tx(0, 15, 21_000);
    light.sender = addr(6);
    light.hash = word(4000);
    let all = vec![
        PendingTransaction { submission_id: 0, priority: 9, transaction: heavy },
        PendingTransaction { submission_id: 1, priority: 1, transaction: light },
    ];
    let best = BestTransactions::new(all);
    let mut best = BestTransactionsWithFees::new(best, 10, 0);

    let built = build_block(env, &spec, &provider, &mut evm, &MockCommitments, &mut best).unwrap();
    assert_eq!(built.block.body.len(), 1);
    assert_eq!(built.block.body[0].sender, addr(6));
    assert_eq!(built.block.header.header.gas_used, 21_000);
}

#[test]
fn builder_skips_nonce_too_low_without_pruning() {
    let spec = test_chain_spec();
    let env = build_env();
    let provider = MockStateReader::empty();
    let mut evm = ScriptedEvm::new(
        EvmEnv { cfg: env.cfg, block: env.block_env, tx: TxEnv::Unset },
        vec![
            Err(EvmError::Transaction(InvalidTransaction::NonceTooLow)),
            success(21_000),
        ],
    );
    let all = vec![pending(tx(0, 15, 21_000)), pending(tx(1, 15, 21_000))];
    let best = BestTransactions::new(all);
    let mut best = BestTransactionsWithFees::new(best, 10, 0);

    let built = build_block(env, &spec, &provider, &mut evm, &MockCommitments, &mut best).unwrap();
    // the stale transaction is skipped silently; its successor executes
    assert_eq!(built.block.body.len(), 1);
    assert_eq!(built.block.body[0].nonce, 1);
}

#[test]
fn builder_prunes_descendants_of_invalid_transaction() {
    let spec = test_chain_spec();
    let env = build_env();
    let provider = MockStateReader::empty();
    // the first transaction is invalid; its successor was already
    // unlocked, executes against the stale nonce and is rejected too
    let mut evm = ScriptedEvm::new(
        EvmEnv { cfg: env.cfg, block: env.block_env, tx: TxEnv::Unset },
        vec![
            Err(EvmError::Transaction(InvalidTransaction::LackOfFundForMaxFee)),
            Err(EvmError::Transaction(InvalidTransaction::NonceTooHigh)),
        ],
    );
    let all = vec![pending(tx(0, 15, 21_000)), pending(tx(1, 15, 21_000))];
    let best = BestTransactions::new(all);
    let mut best = BestTransactionsWithFees::new(best, 10, 0);

    let built = build_block(env, &spec, &provider, &mut evm, &MockCommitments, &mut best).unwrap();
    assert_eq!(built.block.body.len(), 0);
    assert_eq!(built.block.header.header.gas_used, 0);
}

#[test]
fn withdrawals_credit_aggregated_wei() {
    let spec = test_chain_spec();
    let ws = vec![
        Withdrawal { index: 0, validator_index: 1, address: addr(8), amount: 1 },
        Withdrawal { index: 1, validator_index: 2, address: addr(9), amount: 5 },
        Withdrawal { index: 2, validator_index: 3, address: addr(8), amount: 2 },
        Withdrawal { index: 3, validator_index: 4, address: addr(7), amount: 0 },
    ];
    let incs = post_block_withdrawals_balance_increments(&spec, 1500, &ws);
    assert_eq!(incs.len(), 2);
    assert_eq!(incs[0], (addr(8), 3_000_000_000));
    assert_eq!(incs[1], (addr(9), 5_000_000_000));
    // before Shanghai nothing is credited
    let pre = ChainSpec { shanghai_time: Some(9000), ..spec };
    assert_eq!(post_block_withdrawals_balance_increments(&pre, 1500, &ws).len(), 0);
}

#[test]
fn cached_block_validity_window() {
    let built = {
        let spec = test_chain_spec();
        let env = build_env();
        let provider = MockStateReader::empty();
        let mut evm = ScriptedEvm::new(
            EvmEnv { cfg: env.cfg, block: env.block_env, tx: TxEnv::Unset },
            Vec::new(),
        );
        let best = BestTransactions::new(Vec::new());
        let mut best = BestTransactionsWithFees::new(best, 10, 0);
        build_block(env, &spec, &provider, &mut evm, &MockCommitments, &mut best).unwrap()
    };
    let cached = Some(PendingBlock { block: built, expires_at: 2_000 });
    assert!(use_cached_pending_block(&cached, 8, word(777), 1_500));
    assert!(use_cached_pending_block(&cached, 8, word(777), 2_000));
    // expired, wrong height, wrong parent, or no cache entry
    assert!(!use_cached_pending_block(&cached, 8, word(777), 2_001));
    assert!(!use_cached_pending_block(&cached, 9, word(777), 1_500));
    assert!(!use_cached_pending_block(&cached, 8, word(778), 1_500));
    assert!(!use_cached_pending_block(&None, 8, word(777), 1_500));
}

#[test]
fn base_fee_update_rule() {
    let p = BaseFeeParams { max_change_denominator: 8, elasticity_multiplier: 2 };
    // at target: unchanged
    assert_eq!(next_block_base_fee(15_000_000, 30_000_000, 1_000_000_000, p), 1_000_000_000);
    // full block: up by an eighth
    assert_eq!(next_block_base_fee(30_000_000, 30_000_000, 1_000_000_000, p), 1_125_000_000);
    // empty block: down by an eighth
    assert_eq!(next_block_base_fee(0, 30_000_000, 1_000_000_000, p), 875_000_000);
    // above target the raise is at least one
    assert_eq!(next_block_base_fee(15_000_001, 30_000_000, 1, p), 2);
}

#[test]
fn excess_blob_gas_update_rule() {
    assert_eq!(next_block_excess_blob_gas(0, 786_432), 393_216);
    assert_eq!(next_block_excess_blob_gas(0, 0), 0);
    assert_eq!(next_block_excess_blob_gas(393_216, 393_216), 393_216);
    assert_eq!(next_block_excess_blob_gas(0, 131_072), 0);
}

#[test]
fn pending_header_derivation() {
    let env = build_env();
    let latest = match &env.origin {
        PendingBlockEnvOrigin::DerivedFromLatest(h) => h.header.clone(),
        _ => unreachable!(),
    };
    let p = BaseFeeParams { max_change_denominator: 8, elasticity_multiplier: 2 };
    let child = derive_pending_header(&latest, p);
    assert_eq!(child.number, 8);
    assert_eq!(child.timestamp, 1_500);
    // the parent used no gas, so the child base fee drops by an eighth
    assert_eq!(child.base_fee_per_gas, Some(9));
    assert_eq!(child.excess_blob_gas, None);
}

#[test]
fn builder_enforces_blob_gas_budget() {
    let spec = test_chain_spec();
    let mut env = build_env();
    env.cfg = CfgEnv { chain_id: 1, spec_id: SpecId::Cancun };
    let provider = MockStateReader::empty();
    let mut evm = ScriptedEvm::new(
        EvmEnv { cfg: env.cfg, block: env.block_env, tx: TxEnv::Unset },
        vec![success(21_000), success(21_000)],
    );
    // three blob transactions of half the budget each: the first two
    // fill it exactly, the third is excluded by blob skipping
    let mut all = Vec::new();
    for nonce in 0..3u64 {
        let mut t = tx(nonce, 15, 21_000);
        t.kind = TxKind::Eip4844;
        t.max_fee_per_blob_gas = Some(100);
        t.blob_gas = 393_216;
        all.push(pending(t));
    }
    let best = BestTransactions::new(all);
    let mut best = BestTransactionsWithFees::new(best, 10, 0);

    let built = build_block(env, &spec, &provider, &mut evm, &MockCommitments, &mut best).unwrap();
    assert_eq!(built.block.body.len(), 2);
    assert_eq!(built.block.header.header.blob_gas_used, Some(786_432));
    assert_eq!(built.block.header.header.gas_used, 42_000);
}

#[test]
fn builder_aborts_on_fatal_evm_error() {
    let spec = test_chain_spec();
    let env = build_env();
    let provider = MockStateReader::empty();
    let mut evm = ScriptedEvm::new(
        EvmEnv { cfg: env.cfg, block: env.block_env, tx: TxEnv::Unset },
        vec![Err(EvmError::Internal)],
    );
    let all = vec![pending(tx(0, 15, 21_000))];
    let best = BestTransactions::new(all);
    let mut best = BestTransactionsWithFees::new(best, 10, 0);
    let r = build_block(env, &spec, &provider, &mut evm, &MockCommitments, &mut best);
    assert_eq!(r, Err(BlockExecutionError::Evm(EvmError::Internal)));
}
