//! Tests of the protocol system calls and the withdrawal-output parser.

use pending_block::chain::{BaseFeeParams, ChainSpec, SpecId};
use pending_block::evm::{
    BlockEnv, CfgEnv, EvmContext, EvmEnv, EvmError, ResultAndState, ScriptedEvm, TxEnv,
};
use pending_block::primitives::{system_address, Address, B256, U256};
use pending_block::state::{AccountChange, StateCommit, StateDiff};
use pending_block::system_calls::{
    apply_beacon_root_contract_call, apply_withdrawal_requests_contract_call,
    parse_withdrawal_requests, post_block_withdrawal_requests_contract_call,
    pre_block_beacon_root_contract_call, BlockExecutionError, BlockValidationError, Request,
};
use pending_block::overlay::{ExecutedBlock, ExecutionOutput, MemoryOverlayStateProvider};
use pending_block::state::{MockStateReader, ProviderError};
use pending_block::tx::ExecutionResult;

fn test_chain_spec() -> ChainSpec {
    ChainSpec {
        chain_id: 1,
        shanghai_time: Some(0),
        cancun_time: Some(1000),
        prague_time: Some(2000),
        base_fee_params: BaseFeeParams { max_change_denominator: 8, elasticity_multiplier: 2 },
    }
}

fn coinbase() -> Address {
    Address { hi: 0, lo: 0xc0ffee }
}

fn test_env() -> EvmEnv {
    EvmEnv {
        cfg: CfgEnv { chain_id: 1, spec_id: SpecId::Cancun },
        block: BlockEnv {
            number: 5,
            coinbase: coinbase(),
            timestamp: 1500,
            prevrandao: Some(B256::zero()),
            difficulty: U256::zero(),
            basefee: 7,
            gas_limit: 30_000_000,
            blob_excess_gas_and_price: None,
        },
        tx: TxEnv::Unset,
    }
}

fn success_with_output(output: Vec<u8>, state: StateDiff) -> Result<ResultAndState, EvmError> {
    Ok(ResultAndState {
        result: ExecutionResult::Success { gas_used: 50_000, logs: Vec::new(), output },
        state,
    })
}

#[test]
fn beacon_root_call_pre_cancun_is_a_no_op() {
    let spec = test_chain_spec();
    let mut evm = ScriptedEvm::new(test_env(), Vec::new());
    // timestamp before Cancun activation: nothing may change
    let r = apply_beacon_root_contract_call(&spec, 500, 5, None, &mut evm);
    assert!(r.is_ok());
    assert_eq!(evm.commit_count(), 0);
}

#[test]
fn beacon_root_call_requires_root_after_cancun() {
    let spec = test_chain_spec();
    let mut evm = ScriptedEvm::new(test_env(), Vec::new());
    let r = apply_beacon_root_contract_call(&spec, 1500, 5, None, &mut evm);
    assert_eq!(
        r,
        Err(BlockExecutionError::Validation(
            BlockValidationError::MissingParentBeaconBlockRoot
        ))
    );
}

#[test]
fn beacon_root_call_at_genesis_with_nonzero_root_fails() {
    let spec = test_chain_spec();
    let mut evm = ScriptedEvm::new(test_env(), Vec::new());
    let root = B256 { w0: 0x0100000000000000, w1: 0, w2: 0, w3: 0 };
    let r = apply_beacon_root_contract_call(&spec, 1500, 0, Some(root), &mut evm);
    assert_eq!(
        r,
        Err(BlockExecutionError::Validation(
            BlockValidationError::CancunGenesisParentBeaconBlockRootNotZero {
                parent_beacon_block_root: root,
            }
        ))
    );
    assert_eq!(evm.commit_count(), 0);
}

#[test]
fn beacon_root_call_at_genesis_with_zero_root_is_a_no_op() {
    let spec = test_chain_spec();
    let mut evm = ScriptedEvm::new(test_env(), Vec::new());
    let r = apply_beacon_root_contract_call(&spec, 1500, 0, Some(B256::zero()), &mut evm);
    assert!(r.is_ok());
    assert_eq!(evm.commit_count(), 0);
}

#[test]
fn beacon_root_call_scrubs_system_and_coinbase_entries() {
    let spec = test_chain_spec();
    let other = Address { hi: 1, lo: 42 };
    let diff = StateDiff {
        entries: vec![
            AccountChange { address: system_address(), info: None, storage: Vec::new() },
            AccountChange { address: coinbase(), info: None, storage: Vec::new() },
            AccountChange { address: other, info: None, storage: Vec::new() },
        ],
    };
    let script = vec![success_with_output(Vec::new(), diff)];
    let mut evm = ScriptedEvm::new(test_env(), script);
    let before = evm.env_snapshot();
    let root = B256 { w0: 0, w1: 0, w2: 0, w3: 9 };
    let r = apply_beacon_root_contract_call(&spec, 1500, 5, Some(root), &mut evm);
    assert!(r.is_ok());
    assert_eq!(evm.commit_count(), 1);
    match evm.commit_at(0) {
        StateCommit::Diff(d) => {
            assert_eq!(d.entries.len(), 1);
            assert_eq!(d.entries[0].address, other);
        }
        _ => panic!("expected a diff commit"),
    }
    // the saved environment is restored
    assert_eq!(evm.env_snapshot(), before);
}

#[test]
fn beacon_root_call_restores_env_and_reports_failure() {
    let spec = test_chain_spec();
    let script = vec![Err(EvmError::Internal)];
    let mut evm = ScriptedEvm::new(test_env(), script);
    let before = evm.env_snapshot();
    let root = B256 { w0: 0, w1: 0, w2: 0, w3: 9 };
    let r = apply_beacon_root_contract_call(&spec, 1500, 5, Some(root), &mut evm);
    match r {
        Err(BlockExecutionError::Validation(BlockValidationError::BeaconRootContractCall {
            parent_beacon_block_root,
            message,
        })) => {
            assert_eq!(parent_beacon_block_root, root);
            assert_eq!(message.as_str(), "internal evm error");
        }
        _ => panic!("expected a beacon-root contract call failure"),
    }
    assert_eq!(evm.commit_count(), 0);
    assert_eq!(evm.env_snapshot(), before);
}

fn frame(source: [u8; 20], pubkey_byte: u8, amount: u64) -> Vec<u8> {
    let mut out = Vec::new();
    out.extend_from_slice(&source);
    out.extend_from_slice(&[pubkey_byte; 48]);
    out.extend_from_slice(&amount.to_be_bytes());
    out
}

#[test]
fn parse_withdrawal_requests_empty_output_is_legal() {
    let r = parse_withdrawal_requests(&Vec::new()).unwrap();
    assert_eq!(r.len(), 0);
}

#[test]
fn parse_withdrawal_requests_reads_each_frame() {
    let mut source = [0u8; 20];
    source[0] = 0x12;
    source[19] = 0x34;
    let mut data = frame(source, 0xab, 777);
    data.extend_from_slice(&frame([9u8; 20], 0xcd, 1));
    let r = parse_withdrawal_requests(&data).unwrap();
    assert_eq!(r.len(), 2);
    let Request::WithdrawalRequest(w0) = &r[0];
    assert_eq!(w0.source_address, Address { hi: 0x12000000, lo: 0x34 });
    assert_eq!(w0.validator_pubkey, vec![0xab; 48]);
    assert_eq!(w0.amount, 777);
    let Request::WithdrawalRequest(w1) = &r[1];
    assert_eq!(
        w1.source_address,
        Address { hi: 0x09090909, lo: 0x09090909090909090909090909090909 }
    );
    assert_eq!(w1.amount, 1);
}

#[test]
fn parse_withdrawal_requests_rejects_partial_frame() {
    let data = vec![0u8; 77];
    let r = parse_withdrawal_requests(&data);
    assert_eq!(
        r,
        Err(BlockExecutionError::Validation(
            BlockValidationError::WithdrawalRequestsContractCall {
                message: "invalid withdrawal request length".to_string(),
            }
        ))
    );
}

#[test]
fn withdrawal_requests_call_rejects_truncated_output() {
    // a 77-byte output carries a trailing partial frame
    let script = vec![success_with_output(vec![0u8; 77], StateDiff { entries: Vec::new() })];
    let mut evm = ScriptedEvm::new(test_env(), script);
    let r = apply_withdrawal_requests_contract_call(&mut evm);
    match r {
        Err(BlockExecutionError::Validation(
            BlockValidationError::WithdrawalRequestsContractCall { message },
        )) => {
            assert_eq!(message.as_str(), "invalid withdrawal request length");
        }
        _ => panic!("expected a withdrawal-requests contract call failure"),
    }
}

#[test]
fn withdrawal_requests_call_parses_frames_and_commits() {
    let data = frame([3u8; 20], 0x01, 5);
    let script = vec![success_with_output(data, StateDiff { entries: Vec::new() })];
    let mut evm = ScriptedEvm::new(test_env(), script);
    let before = evm.env_snapshot();
    let r = apply_withdrawal_requests_contract_call(&mut evm).unwrap();
    assert_eq!(r.len(), 1);
    assert_eq!(evm.commit_count(), 1);
    assert_eq!(evm.env_snapshot(), before);
}

#[test]
fn withdrawal_requests_call_reports_revert() {
    let script = vec![Ok(ResultAndState {
        result: ExecutionResult::Revert { gas_used: 1, output: Vec::new() },
        state: StateDiff { entries: Vec::new() },
    })];
    let mut evm = ScriptedEvm::new(test_env(), script);
    let r = apply_withdrawal_requests_contract_call(&mut evm);
    match r {
        Err(BlockExecutionError::Validation(
            BlockValidationError::WithdrawalRequestsContractCall { message },
        )) => {
            assert_eq!(message.as_str(), "execution reverted");
        }
        _ => panic!("expected a withdrawal-requests contract call failure"),
    }
    // the diff of the reverted call is still committed, scrubbed
    assert_eq!(evm.commit_count(), 1);
}

#[test]
fn account_proof_on_nonempty_overlay_is_unsupported() {
    let blocks = vec![ExecutedBlock {
        number: 13,
        hash: B256::zero(),
        execution_output: ExecutionOutput {
            accounts: Vec::new(),
            storage_slots: Vec::new(),
            bytecodes: Vec::new(),
        },
    }];
    let overlay = MemoryOverlayStateProvider::new(blocks, MockStateReader::empty());
    let r = overlay.account_proof(Address { hi: 0, lo: 1 }, &Vec::new());
    assert_eq!(r, Err(ProviderError::ProofUnsupported));
}

#[test]
fn pre_block_call_stages_a_fresh_environment() {
    let spec = test_chain_spec();
    let env = test_env();
    // start from a stale environment; the pre-block call replaces it
    let mut stale = env;
    stale.block.number = 999;
    let mut evm = ScriptedEvm::new(stale, Vec::new());
    let r = pre_block_beacon_root_contract_call(
        &mut evm,
        &spec,
        &env.cfg,
        &env.block,
        5,
        500,
        None,
    );
    assert!(r.is_ok());
    assert_eq!(evm.env_snapshot(), env);
}

#[test]
fn post_block_call_runs_over_the_given_environment() {
    let env = test_env();
    let data = frame([3u8; 20], 0x01, 5);
    let script = vec![success_with_output(data, StateDiff { entries: Vec::new() })];
    let mut evm = ScriptedEvm::new(env, script);
    let r = post_block_withdrawal_requests_contract_call(&mut evm, &env.cfg, &env.block);
    assert_eq!(r.unwrap().len(), 1);
    assert_eq!(evm.env_snapshot(), env);
}
