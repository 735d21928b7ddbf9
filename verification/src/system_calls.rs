//! Protocol system calls: the pre-block beacon-root update (EIP-4788)
//! and the post-block withdrawal-requests read (EIP-7002). Both execute
//! as pseudo-transactions from the synthetic system sender; the state
//! entries of the system sender and of the coinbase are scrubbed from
//! the diff before it is committed.

use vstd::prelude::*;
use crate::chain::ChainSpec;
use crate::evm::{EvmContext, EvmEnv, EvmError, SystemCallData};
use crate::primitives::{
    beacon_roots_address, system_address, system_address_spec, Address, B256,
    WITHDRAWAL_REQUEST_SIZE,
};
use crate::state::{AccountChange, StateCommit, StateDiff};
use crate::tx::ExecutionResult;

verus! {

broadcast use
    vstd::seq_lib::group_filter_ensures,
    Seq::lemma_filter_push,
;

/// A block-level validation failure: fatal to the current build.
#[derive(Clone, PartialEq, Eq, Debug)]
pub enum BlockValidationError {
    /// Cancun is active but the parent beacon block root is missing.
    MissingParentBeaconBlockRoot,
    /// At genesis the parent beacon block root must be zero.
    CancunGenesisParentBeaconBlockRootNotZero { parent_beacon_block_root: B256 },
    /// The beacon-root contract call failed.
    BeaconRootContractCall { parent_beacon_block_root: B256, message: String },
    /// The withdrawal-requests contract call failed.
    WithdrawalRequestsContractCall { message: String },
}

/// A failure of block execution.
#[derive(Clone, PartialEq, Eq, Debug)]
pub enum BlockExecutionError {
    /// A block-level validation failure.
    Validation(BlockValidationError),
    /// A state-provider failure.
    Provider(crate::state::ProviderError),
    /// An EVM failure outside the per-transaction subtree.
    Evm(EvmError),
}

/// A protocol request read from the withdrawal-requests predeploy.
#[derive(Clone, PartialEq, Eq, Debug)]
pub enum Request {
    WithdrawalRequest(WithdrawalRequest),
}

/// One withdrawal request: source address, validator public key and
/// amount in gwei.
#[derive(Clone, PartialEq, Eq, Debug)]
pub struct WithdrawalRequest {
    pub source_address: Address,
    pub validator_pubkey: Vec<u8>,
    pub amount: u64,
}

/// The big-endian integer a byte string encodes.
pub open spec fn be_int(bytes: Seq<u8>) -> int
    decreases bytes.len(),
{
    if bytes.len() == 0 {
        0
    } else {
        be_int(bytes.drop_last()) * 256 + bytes.last()
    }
}

/// 256 to the `n`.
pub open spec fn pow256(n: nat) -> int
    decreases n,
{
    if n == 0 {
        1
    } else {
        256 * pow256((n - 1) as nat)
    }
}

/// The address a 20-byte string encodes.
pub open spec fn address_of_bytes(bytes: Seq<u8>) -> Address {
    Address {
        hi: be_int(bytes.subrange(0, 4)) as u32,
        lo: be_int(bytes.subrange(4, 20)) as u128,
    }
}

/// Whether `r` is the withdrawal request a 76-byte frame encodes: a
/// 20-byte source address, a 48-byte validator public key, an 8-byte
/// big-endian amount.
pub open spec fn wr_matches(frame: Seq<u8>, r: WithdrawalRequest) -> bool {
    &&& r.source_address == address_of_bytes(frame.subrange(0, 20))
    &&& r.validator_pubkey@ == frame.subrange(20, 68)
    &&& r.amount == be_int(frame.subrange(68, 76))
}

/// A big-endian integer is below 256 to the number of its bytes.
proof fn lemma_be_int_bound(bytes: Seq<u8>)
    ensures
        0 <= be_int(bytes) < pow256(bytes.len()),
    decreases bytes.len(),
{
    if bytes.len() > 0 {
        lemma_be_int_bound(bytes.drop_last());
    }
}

/// Read `n <= 16` big-endian bytes at `off` as an integer.
fn be_bytes_at(data: &Vec<u8>, off: usize, n: usize) -> (r: u128)
    requires
        off + n <= data@.len(),
        n <= 16,
    ensures
        r == be_int(data@.subrange(off as int, off as int + n as int)),
{
    proof {
        reveal_with_fuel(pow256, 18);
        vstd::std_specs::vec::axiom_spec_len(data);
    }
    let mut acc: u128 = 0;
    let mut i: usize = 0;
    proof {
        assert(data@.subrange(off as int, off as int) =~= Seq::<u8>::empty());
    }
    while i < n
        invariant
            i <= n <= 16,
            off + n <= data@.len(),
            acc == be_int(data@.subrange(off as int, off as int + i as int)),
            acc < pow256(i as nat),
            data@.len() <= usize::MAX,
        decreases n - i,
    {
        proof {
            reveal_with_fuel(pow256, 18);
            assert(data@.subrange(off as int, off as int + i as int + 1).drop_last()
                =~= data@.subrange(off as int, off as int + i as int));
            assert(data@.subrange(off as int, off as int + i as int + 1).last() == data@[off as int
                + i as int]);
            assert(pow256(i as nat + 1) == 256 * pow256(i as nat));
            assert(pow256(16) == 0x100000000000000000000000000000000);
            assert(pow256(i as nat) <= pow256(16)) by {
                lemma_pow256_monotone(i as nat, 16);
            }
        }
        acc = acc * 256 + (data[off + i] as u128);
        i = i + 1;
    }
    acc
}

/// `pow256` grows with its exponent.
proof fn lemma_pow256_monotone(a: nat, b: nat)
    requires
        a <= b,
    ensures
        pow256(a) <= pow256(b),
    decreases b,
{
    if a < b {
        lemma_pow256_monotone(a, (b - 1) as nat);
        assert(pow256(b) == 256 * pow256((b - 1) as nat));
        assert(pow256((b - 1) as nat) >= 1) by {
            lemma_be_int_bound(Seq::empty());
            lemma_pow256_pos((b - 1) as nat);
        }
    }
}

/// `pow256` is positive.
proof fn lemma_pow256_pos(n: nat)
    ensures
        pow256(n) >= 1,
    decreases n,
{
    if n > 0 {
        lemma_pow256_pos((n - 1) as nat);
    }
}

/// Parse the raw output of the withdrawal-requests predeploy: a
/// sequence of 76-byte frames to end of input. For input of length `L`
/// the parse succeeds with `L / 76` requests exactly when `L` is a
/// multiple of 76; a trailing partial frame rejects the whole output.
pub fn parse_withdrawal_requests(data: &Vec<u8>) -> (r: Result<Vec<Request>, BlockExecutionError>)
    ensures
        (data@.len() % 76 == 0) <==> r is Ok,
        r matches Ok(v) ==> v@.len() == data@.len() / 76 && (forall|i: int|
            0 <= i < v@.len() ==> (#[trigger] v@[i] matches Request::WithdrawalRequest(w)
                && wr_matches(data@.subrange(76 * i, 76 * i + 76), w))),
        r matches Err(e) ==> e matches BlockExecutionError::Validation(
            BlockValidationError::WithdrawalRequestsContractCall { message },
        ) && message@ == "invalid withdrawal request length"@,
{
    let mut out: Vec<Request> = Vec::new();
    let mut off: usize = 0;
    proof {
        vstd::std_specs::vec::axiom_spec_len(data);
    }
    while data.len() - off >= WITHDRAWAL_REQUEST_SIZE
        invariant
            off % 76 == 0,
            off <= data@.len(),
            data@.len() <= usize::MAX,
            out@.len() == off as int / 76,
            forall|i: int|
                0 <= i < out@.len() ==> (#[trigger] out@[i] matches Request::WithdrawalRequest(w)
                    && wr_matches(data@.subrange(76 * i, 76 * i + 76), w)),
        decreases data@.len() - off,
    {
        let hi = be_bytes_at(data, off, 4);
        let lo = be_bytes_at(data, off + 4, 16);
        proof {
            reveal_with_fuel(pow256, 18);
            lemma_be_int_bound(data@.subrange(off as int, off as int + 4));
            lemma_be_int_bound(data@.subrange(off as int + 4, off as int + 20));
            lemma_pow256_monotone(4, 16);
        }
        let source_address = Address { hi: hi as u32, lo };
        let mut validator_pubkey: Vec<u8> = Vec::new();
        let mut k: usize = 0;
        proof {
            assert(data@.subrange(off as int + 20, off as int + 20) =~= Seq::<u8>::empty());
        }
        while k < 48
            invariant
                k <= 48,
                off + 76 <= data@.len(),
                data@.len() <= usize::MAX,
                validator_pubkey@ == data@.subrange(off as int + 20, off as int + 20 + k as int),
            decreases 48 - k,
        {
            validator_pubkey.push(data[off + 20 + k]);
            proof {
                assert(validator_pubkey@ =~= data@.subrange(
                    off as int + 20,
                    off as int + 20 + k as int + 1,
                ));
            }
            k = k + 1;
        }
        let amount_wide = be_bytes_at(data, off + 68, 8);
        proof {
            reveal_with_fuel(pow256, 18);
            lemma_be_int_bound(data@.subrange(off as int + 68, off as int + 76));
        }
        let amount = amount_wide as u64;
        let request = Request::WithdrawalRequest(
            WithdrawalRequest { source_address, validator_pubkey, amount },
        );
        let ghost oldout = out@;
        out.push(request);
        proof {
            let i0 = oldout.len() as int;
            assert(76 * i0 == off as int);
            assert(data@.subrange(76 * i0, 76 * i0 + 76).subrange(0, 4) =~= data@.subrange(
                off as int,
                off as int + 4,
            ));
            assert(data@.subrange(76 * i0, 76 * i0 + 76).subrange(4, 20) =~= data@.subrange(
                off as int + 4,
                off as int + 20,
            ));
            assert(data@.subrange(76 * i0, 76 * i0 + 76).subrange(0, 20).subrange(0, 4)
                =~= data@.subrange(off as int, off as int + 4));
            assert(data@.subrange(76 * i0, 76 * i0 + 76).subrange(0, 20).subrange(4, 20)
                =~= data@.subrange(off as int + 4, off as int + 20));
            assert(data@.subrange(76 * i0, 76 * i0 + 76).subrange(20, 68) =~= data@.subrange(
                off as int + 20,
                off as int + 68,
            ));
            assert(data@.subrange(76 * i0, 76 * i0 + 76).subrange(68, 76) =~= data@.subrange(
                off as int + 68,
                off as int + 76,
            ));
        }
        off = off + WITHDRAWAL_REQUEST_SIZE;
    }
    if off < data.len() {
        return Err(
            BlockExecutionError::Validation(
                BlockValidationError::WithdrawalRequestsContractCall {
                    message: String::from_str("invalid withdrawal request length"),
                },
            ),
        );
    }
    Ok(out)
}

/// Whether a state diff holds no entry for either scrubbed address.
pub open spec fn scrubbed(d: StateDiff, a1: Address, a2: Address) -> bool {
    forall|i: int|
        0 <= i < d.entries@.len() ==> (#[trigger] d.entries@[i]).address != a1
            && d.entries@[i].address != a2
}

/// Remove the entries of the two addresses from a state diff, keeping
/// the order of the rest.
pub fn scrub_state_diff(diff: &mut StateDiff, a1: Address, a2: Address)
    ensures
        final(diff).entries@ == old(diff).entries@.filter(
            |c: AccountChange| c.address != a1 && c.address != a2,
        ),
        scrubbed(*final(diff), a1, a2),
{
    let ghost pred = |c: AccountChange| c.address != a1 && c.address != a2;
    let mut out: Vec<AccountChange> = Vec::new();
    let ghost orig = diff.entries@;
    let ghost k: int = 0;
    proof {
        assert(orig.subrange(0, 0).filter(pred) =~= Seq::<AccountChange>::empty());
        assert(orig.subrange(0, orig.len() as int) =~= orig);
    }
    let mut processed: usize = 0;
    proof {
        vstd::std_specs::vec::axiom_spec_len(&diff.entries);
    }
    while diff.entries.len() > 0
        invariant
            processed <= orig.len(),
            orig.len() <= usize::MAX,
            diff.entries@ == orig.subrange(processed as int, orig.len() as int),
            pred == (|c: AccountChange| c.address != a1 && c.address != a2),
            out@ == orig.subrange(0, processed as int).filter(pred),
        decreases diff.entries@.len(),
    {
        let c = diff.entries.remove(0);
        proof {
            assert(orig.subrange(processed as int, orig.len() as int)[0] == orig[processed as int]);
            assert(orig.subrange(processed as int, orig.len() as int).remove(0) =~= orig.subrange(
                processed as int + 1,
                orig.len() as int,
            ));
            assert(orig.subrange(0, processed as int + 1) =~= orig.subrange(
                0,
                processed as int,
            ).push(orig[processed as int]));
        }
        if !(c.address == a1 || c.address == a2) {
            out.push(c);
        }
        processed = processed + 1;
    }
    proof {
        assert(orig.subrange(0, processed as int) =~= orig);
    }
    diff.entries = out;
}

/// Apply the EIP-4788 pre-block beacon-root call.
///
/// Before Cancun this is a no-op. With Cancun active the parent beacon
/// block root is required; at genesis it must be zero and nothing is
/// executed. Otherwise the beacon-roots predeploy is called from the
/// system sender with the root as call data; on success the diff is
/// committed with the system sender and the coinbase scrubbed, and the
/// saved environment is restored either way. A failed execution reports
/// the EVM failure's fixed description; rendering the collaborator's own
/// display is left to the caller's logging.
pub fn apply_beacon_root_contract_call<E: EvmContext>(
    chain_spec: &ChainSpec,
    block_timestamp: u64,
    block_number: u64,
    parent_beacon_block_root: Option<B256>,
    evm: &mut E,
) -> (r: Result<(), BlockExecutionError>)
    ensures
        final(evm).env() == old(evm).env(),
        !chain_spec.is_cancun_active_at_timestamp_spec(block_timestamp)
            ==> r is Ok && final(evm).commits() == old(evm).commits(),
        chain_spec.is_cancun_active_at_timestamp_spec(block_timestamp)
            && parent_beacon_block_root is None ==> r == Err::<(), BlockExecutionError>(
            BlockExecutionError::Validation(BlockValidationError::MissingParentBeaconBlockRoot),
        ) && final(evm).commits() == old(evm).commits(),
        chain_spec.is_cancun_active_at_timestamp_spec(block_timestamp) && block_number == 0 ==> (
        parent_beacon_block_root matches Some(root) ==> (if root != B256::zero_spec() {
            r == Err::<(), BlockExecutionError>(
                BlockExecutionError::Validation(
                    BlockValidationError::CancunGenesisParentBeaconBlockRootNotZero {
                        parent_beacon_block_root: root,
                    },
                ),
            )
        } else {
            r is Ok
        }) && final(evm).commits() == old(evm).commits()),
        chain_spec.is_cancun_active_at_timestamp_spec(block_timestamp) && block_number != 0 ==> (
        parent_beacon_block_root matches Some(root) ==> {
            &&& (r is Ok ==> final(evm).commits().len() == old(evm).commits().len() + 1
                && final(evm).commits().drop_last() == old(evm).commits()
                && (final(evm).commits().last() matches StateCommit::Diff(d) && scrubbed(
                d,
                system_address_spec(),
                old(evm).env().block.coinbase,
            )))
            &&& (r matches Err(e) ==> final(evm).commits() == old(evm).commits() && (e matches
            BlockExecutionError::Validation(
                BlockValidationError::BeaconRootContractCall {
                    parent_beacon_block_root: rr,
                    message,
                },
            ) && rr == root))
        }),
{
    if !chain_spec.is_cancun_active_at_timestamp(block_timestamp) {
        return Ok(());
    }
    let parent_beacon_block_root = match parent_beacon_block_root {
        Some(root) => root,
        None => {
            return Err(
                BlockExecutionError::Validation(
                    BlockValidationError::MissingParentBeaconBlockRoot,
                ),
            );
        },
    };
    if block_number == 0 {
        if !parent_beacon_block_root.is_zero() {
            return Err(
                BlockExecutionError::Validation(
                    BlockValidationError::CancunGenesisParentBeaconBlockRootNotZero {
                        parent_beacon_block_root,
                    },
                ),
            );
        }
        return Ok(());
    }
    let previous_env = evm.env_snapshot();
    evm.fill_tx_env_system_contract_call(
        system_address(),
        beacon_roots_address(),
        SystemCallData::Word(parent_beacon_block_root),
    );
    let coinbase = evm.block_coinbase();
    let outcome = evm.transact();
    let mut state = match outcome {
        Ok(res) => res.state,
        Err(e) => {
            evm.set_env(previous_env);
            return Err(
                BlockExecutionError::Validation(
                    BlockValidationError::BeaconRootContractCall {
                        parent_beacon_block_root,
                        message: e.message(),
                    },
                ),
            );
        },
    };
    scrub_state_diff(&mut state, system_address(), coinbase);
    evm.commit(state);
    evm.set_env(previous_env);
    Ok(())
}

/// Apply the EIP-7002 post-block withdrawal-requests call. Fork
/// activation is the caller's responsibility: with Prague inactive this
/// must not be invoked.
///
/// The withdrawal-requests predeploy is called from the system sender
/// with empty call data. Unless the EVM itself fails, the resulting
/// diff is committed with the system sender and the coinbase scrubbed --
/// also when execution reverted or halted, so the call's remaining state
/// effects persist; on an EVM failure nothing is committed. The saved environment
/// is restored in every case. On success the raw output is parsed into
/// withdrawal requests. The error messages are fixed prefixes: rendering
/// the reverted output or the halt reason is the collaborator's display
/// and is left to the caller's logging.
pub fn apply_withdrawal_requests_contract_call<E: EvmContext>(evm: &mut E) -> (r: Result<
    Vec<Request>,
    BlockExecutionError,
>)
    ensures
        final(evm).env() == old(evm).env(),
        r matches Ok(v) ==> final(evm).commits().len() == old(evm).commits().len() + 1
            && final(evm).commits().drop_last() == old(evm).commits()
            && (final(evm).commits().last() matches StateCommit::Diff(d) && scrubbed(
            d,
            system_address_spec(),
            old(evm).env().block.coinbase,
        )) && (exists|data: Seq<u8>|
            #[trigger] data.len() % 76 == 0 && v@.len() == data.len() / 76 && (forall|i: int|
                0 <= i < v@.len() ==> (#[trigger] v@[i] matches Request::WithdrawalRequest(w)
                    && wr_matches(data.subrange(76 * i, 76 * i + 76), w)))),
        r matches Err(e) ==> (e matches BlockExecutionError::Validation(
            BlockValidationError::WithdrawalRequestsContractCall { message },
        ) && ((message@ == "execution failed"@ && final(evm).commits() == old(evm).commits()) || ((
        message@ == "execution reverted"@ || message@ == "execution halted"@ || message@
            == "invalid withdrawal request length"@) && final(evm).commits().len()
            == old(evm).commits().len() + 1
            && final(evm).commits().drop_last() == old(evm).commits()
            && (final(evm).commits().last() matches StateCommit::Diff(d) && scrubbed(
            d,
            system_address_spec(),
            old(evm).env().block.coinbase,
        ))))),
{
    let previous_env = evm.env_snapshot();
    evm.fill_tx_env_system_contract_call(
        system_address(),
        crate::primitives::withdrawal_request_predeploy_address(),
        SystemCallData::Empty,
    );
    let coinbase = evm.block_coinbase();
    let outcome = evm.transact();
    let res = match outcome {
        Ok(res) => res,
        Err(_e) => {
            evm.set_env(previous_env);
            return Err(
                BlockExecutionError::Validation(
                    BlockValidationError::WithdrawalRequestsContractCall {
                        message: String::from_str("execution failed"),
                    },
                ),
            );
        },
    };
    let mut state = res.state;
    scrub_state_diff(&mut state, system_address(), coinbase);
    evm.commit(state);
    evm.set_env(previous_env);
    let data = match res.result {
        ExecutionResult::Success { output, .. } => output,
        ExecutionResult::Revert { .. } => {
            return Err(
                BlockExecutionError::Validation(
                    BlockValidationError::WithdrawalRequestsContractCall {
                        message: String::from_str("execution reverted"),
                    },
                ),
            );
        },
        ExecutionResult::Halt { .. } => {
            return Err(
                BlockExecutionError::Validation(
                    BlockValidationError::WithdrawalRequestsContractCall {
                        message: String::from_str("execution halted"),
                    },
                ),
            );
        },
    };
    let requests = match parse_withdrawal_requests(&data) {
        Ok(v) => v,
        Err(e) => {
            return Err(e);
        },
    };
    proof {
        assert(data@.len() % 76 == 0 && requests@.len() == data@.len() / 76);
    }
    Ok(requests)
}


/// Apply the EIP-4788 pre-block contract call over a fresh environment
/// built from the given configuration and block environments, as the
/// builder stages it before executing user transactions.
pub fn pre_block_beacon_root_contract_call<E: EvmContext>(
    evm: &mut E,
    chain_spec: &ChainSpec,
    initialized_cfg: &crate::evm::CfgEnv,
    initialized_block_env: &crate::evm::BlockEnv,
    block_number: u64,
    block_timestamp: u64,
    parent_beacon_block_root: Option<B256>,
) -> (r: Result<(), BlockExecutionError>)
    ensures
        final(evm).env() == (EvmEnv {
            cfg: *initialized_cfg,
            block: *initialized_block_env,
            tx: crate::evm::TxEnv::Unset,
        }),
        !chain_spec.is_cancun_active_at_timestamp_spec(block_timestamp)
            ==> r is Ok && final(evm).commits() == old(evm).commits(),
        chain_spec.is_cancun_active_at_timestamp_spec(block_timestamp)
            && parent_beacon_block_root is None ==> r == Err::<(), BlockExecutionError>(
            BlockExecutionError::Validation(BlockValidationError::MissingParentBeaconBlockRoot),
        ) && final(evm).commits() == old(evm).commits(),
        chain_spec.is_cancun_active_at_timestamp_spec(block_timestamp) && block_number == 0 ==> (
        parent_beacon_block_root matches Some(root) ==> (if root != B256::zero_spec() {
            r == Err::<(), BlockExecutionError>(
                BlockExecutionError::Validation(
                    BlockValidationError::CancunGenesisParentBeaconBlockRootNotZero {
                        parent_beacon_block_root: root,
                    },
                ),
            )
        } else {
            r is Ok
        }) && final(evm).commits() == old(evm).commits()),
        chain_spec.is_cancun_active_at_timestamp_spec(block_timestamp) && block_number != 0 ==> (
        parent_beacon_block_root matches Some(root) ==> {
            &&& (r is Ok ==> final(evm).commits().len() == old(evm).commits().len() + 1
                && final(evm).commits().drop_last() == old(evm).commits()
                && (final(evm).commits().last() matches StateCommit::Diff(d) && scrubbed(
                d,
                system_address_spec(),
                initialized_block_env.coinbase,
            )))
            &&& (r matches Err(e) ==> final(evm).commits() == old(evm).commits() && (e matches
            BlockExecutionError::Validation(
                BlockValidationError::BeaconRootContractCall {
                    parent_beacon_block_root: rr,
                    message,
                },
            ) && rr == root))
        }),
{
    evm.set_env(
        EvmEnv {
            cfg: *initialized_cfg,
            block: *initialized_block_env,
            tx: crate::evm::TxEnv::Unset,
        },
    );
    apply_beacon_root_contract_call(
        chain_spec,
        block_timestamp,
        block_number,
        parent_beacon_block_root,
        evm,
    )
}

/// Apply the EIP-7002 post-block contract call over a fresh environment
/// built from the given configuration and block environments, as the
/// builder stages it after the selection loop.
pub fn post_block_withdrawal_requests_contract_call<E: EvmContext>(
    evm: &mut E,
    initialized_cfg: &crate::evm::CfgEnv,
    initialized_block_env: &crate::evm::BlockEnv,
) -> (r: Result<Vec<Request>, BlockExecutionError>)
    ensures
        final(evm).env() == (EvmEnv {
            cfg: *initialized_cfg,
            block: *initialized_block_env,
            tx: crate::evm::TxEnv::Unset,
        }),
        r matches Ok(v) ==> final(evm).commits().len() == old(evm).commits().len() + 1
            && final(evm).commits().drop_last() == old(evm).commits()
            && (final(evm).commits().last() matches StateCommit::Diff(d) && scrubbed(
            d,
            system_address_spec(),
            initialized_block_env.coinbase,
        )) && (exists|data: Seq<u8>|
            #[trigger] data.len() % 76 == 0 && v@.len() == data.len() / 76 && (forall|i: int|
                0 <= i < v@.len() ==> (#[trigger] v@[i] matches Request::WithdrawalRequest(w)
                    && wr_matches(data.subrange(76 * i, 76 * i + 76), w)))),
        r matches Err(e) ==> (e matches BlockExecutionError::Validation(
            BlockValidationError::WithdrawalRequestsContractCall { message },
        ) && ((message@ == "execution failed"@ && final(evm).commits() == old(evm).commits()) || ((
        message@ == "execution reverted"@ || message@ == "execution halted"@ || message@
            == "invalid withdrawal request length"@) && final(evm).commits().len()
            == old(evm).commits().len() + 1
            && final(evm).commits().drop_last() == old(evm).commits()
            && (final(evm).commits().last() matches StateCommit::Diff(d) && scrubbed(
            d,
            system_address_spec(),
            initialized_block_env.coinbase,
        ))))),
{
    evm.set_env(
        EvmEnv {
            cfg: *initialized_cfg,
            block: *initialized_block_env,
            tx: crate::evm::TxEnv::Unset,
        },
    );
    apply_withdrawal_requests_contract_call(evm)
}

} // verus!
