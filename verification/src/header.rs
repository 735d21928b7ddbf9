//! Block headers, sealing, and the child-block environment derived from
//! the chain tip: the EIP-1559 base-fee update, the EIP-4844 excess blob
//! gas update, and filling a block environment from a header.

use vstd::prelude::*;
use crate::chain::BaseFeeParams;
use crate::evm::{BlobExcessGasAndPrice, BlockEnv};
use crate::primitives::{Address, B256, U256};

verus! {

/// A 2048-bit log bloom as eight 256-bit words.
#[derive(Clone, Copy, PartialEq, Eq, Structural, Debug)]
pub struct Bloom {
    pub b0: B256,
    pub b1: B256,
    pub b2: B256,
    pub b3: B256,
    pub b4: B256,
    pub b5: B256,
    pub b6: B256,
    pub b7: B256,
}

impl Bloom {
    /// The empty bloom.
    pub fn zero() -> (r: Bloom)
        ensures
            r == Bloom::zero_spec(),
    {
        Bloom {
            b0: B256::zero(),
            b1: B256::zero(),
            b2: B256::zero(),
            b3: B256::zero(),
            b4: B256::zero(),
            b5: B256::zero(),
            b6: B256::zero(),
            b7: B256::zero(),
        }
    }

    pub open spec fn zero_spec() -> Bloom {
        Bloom {
            b0: B256::zero_spec(),
            b1: B256::zero_spec(),
            b2: B256::zero_spec(),
            b3: B256::zero_spec(),
            b4: B256::zero_spec(),
            b5: B256::zero_spec(),
            b6: B256::zero_spec(),
            b7: B256::zero_spec(),
        }
    }
}

/// An execution-layer block header.
#[derive(Clone, PartialEq, Eq, Debug)]
pub struct Header {
    pub parent_hash: B256,
    pub ommers_hash: B256,
    pub beneficiary: Address,
    pub state_root: B256,
    pub transactions_root: B256,
    pub receipts_root: B256,
    pub withdrawals_root: Option<B256>,
    pub logs_bloom: Bloom,
    pub difficulty: U256,
    pub number: u64,
    pub gas_limit: u64,
    pub gas_used: u64,
    pub timestamp: u64,
    pub mix_hash: B256,
    pub nonce: u64,
    pub base_fee_per_gas: Option<u64>,
    pub blob_gas_used: Option<u64>,
    pub excess_blob_gas: Option<u64>,
    pub parent_beacon_block_root: Option<B256>,
    pub requests_root: Option<B256>,
    pub extra_data: Vec<u8>,
}

/// A header together with its hash.
#[derive(Clone, PartialEq, Eq, Debug)]
pub struct SealedHeader {
    pub header: Header,
    pub hash: B256,
}

/// Target gas of a block under the EIP-1559 elasticity rule.
pub open spec fn spec_gas_target(gas_limit: u64, p: BaseFeeParams) -> int {
    gas_limit as int / p.elasticity_multiplier as int
}

/// The EIP-1559 base fee of the child block, as an unbounded integer.
pub open spec fn spec_next_block_base_fee(
    gas_used: u64,
    gas_limit: u64,
    base_fee: u64,
    p: BaseFeeParams,
) -> int {
    let target = spec_gas_target(gas_limit, p);
    if gas_used == target {
        base_fee as int
    } else if gas_used > target {
        let delta = gas_used - target;
        let raise = base_fee * delta / target / p.max_change_denominator as int;
        base_fee + (if raise > 1 {
            raise
        } else {
            1
        })
    } else {
        let delta = target - gas_used;
        base_fee - base_fee * delta / target / p.max_change_denominator as int
    }
}

/// The base fee of the child of a block that used `gas_used` of
/// `gas_limit` at `base_fee`: unchanged on target, raised by at least
/// one when above, lowered when below.
pub fn next_block_base_fee(gas_used: u64, gas_limit: u64, base_fee: u64, p: BaseFeeParams) -> (r:
    u64)
    requires
        p.elasticity_multiplier >= 1,
        p.max_change_denominator >= 1,
        spec_gas_target(gas_limit, p) >= 1,
        spec_next_block_base_fee(gas_used, gas_limit, base_fee, p) <= u64::MAX,
    ensures
        r == spec_next_block_base_fee(gas_used, gas_limit, base_fee, p),
{
    let gas_target = gas_limit / p.elasticity_multiplier;
    if gas_used == gas_target {
        base_fee
    } else if gas_used > gas_target {
        let delta = (gas_used - gas_target) as u128;
        proof {
            assert(base_fee as u128 * delta <= u128::MAX) by (nonlinear_arith)
                requires
                    base_fee as u128 <= u64::MAX,
                    delta <= u64::MAX,
            ;
        }
        let raise = (base_fee as u128 * delta / gas_target as u128)
            / p.max_change_denominator as u128;
        let raise_or_one = if raise > 1 {
            raise
        } else {
            1
        };
        proof {
            assert(raise == base_fee * (gas_used - spec_gas_target(gas_limit, p)) / spec_gas_target(
                gas_limit,
                p,
            ) / p.max_change_denominator as int);
        }
        base_fee + (raise_or_one as u64)
    } else {
        let delta = (gas_target - gas_used) as u128;
        proof {
            assert(base_fee as u128 * delta <= u128::MAX) by (nonlinear_arith)
                requires
                    base_fee as u128 <= u64::MAX,
                    delta <= u64::MAX,
            ;
        }
        let lower = (base_fee as u128 * delta / gas_target as u128)
            / p.max_change_denominator as u128;
        proof {
            let bf = base_fee as int;
            let d = delta as int;
            let gt = gas_target as int;
            let md = p.max_change_denominator as int;
            assert(lower == bf * d / gt / md);
            assert(bf * d / gt <= bf) by (nonlinear_arith)
                requires
                    0 <= d <= gt,
                    gt >= 1,
                    bf >= 0,
            ;
            assert(bf * d / gt / md <= bf * d / gt) by (nonlinear_arith)
                requires
                    md >= 1,
                    bf * d / gt >= 0,
            ;
        }
        base_fee - (lower as u64)
    }
}

/// Blob gas targeted per block (EIP-4844).
pub const TARGET_DATA_GAS_PER_BLOCK: u64 = 393216;

/// The excess blob gas of the child block: the parent's excess plus its
/// use, less the target, floored at zero.
pub open spec fn spec_next_block_excess_blob_gas(excess_blob_gas: u64, blob_gas_used: u64) -> int {
    if excess_blob_gas + blob_gas_used > TARGET_DATA_GAS_PER_BLOCK {
        excess_blob_gas + blob_gas_used - TARGET_DATA_GAS_PER_BLOCK
    } else {
        0
    }
}

/// Compute the child block's excess blob gas.
pub fn next_block_excess_blob_gas(excess_blob_gas: u64, blob_gas_used: u64) -> (r: u64)
    requires
        excess_blob_gas + blob_gas_used <= u64::MAX,
    ensures
        r == spec_next_block_excess_blob_gas(excess_blob_gas, blob_gas_used),
{
    let sum = excess_blob_gas + blob_gas_used;
    if sum > TARGET_DATA_GAS_PER_BLOCK {
        sum - TARGET_DATA_GAS_PER_BLOCK
    } else {
        0
    }
}

/// The blob gas price the EVM derives from the excess blob gas.
pub uninterp spec fn blob_gasprice_of(excess_blob_gas: u64) -> u128;

/// Relies on `alloy_eips::eip4844::calc_blob_gasprice`: the blob gas
/// price under the Cancun parameters is a function of the excess blob
/// gas alone, at least the minimum blob gas price of one, saturating at
/// `u128::MAX` instead of overflowing.
#[verifier::external_body]
pub(crate) fn calc_blob_gasprice(excess_blob_gas: u64) -> (r: u128)
    ensures
        r == blob_gasprice_of(excess_blob_gas),
        r >= 1,
{
    alloy_eips::eip4844::calc_blob_gasprice(excess_blob_gas)
}

/// Fill a block environment from a header and an explicit beneficiary:
/// post-merge the difficulty is zero and the randomness comes from the
/// header's mix hash; blob gas accounting is carried over when the
/// header has it.
pub fn fill_block_env_with_coinbase(
    block_env: &mut BlockEnv,
    header: &Header,
    after_merge: bool,
    coinbase: Address,
)
    ensures
        final(block_env).number == header.number,
        final(block_env).coinbase == coinbase,
        final(block_env).timestamp == header.timestamp,
        after_merge ==> final(block_env).prevrandao == Some(header.mix_hash)
            && final(block_env).difficulty == U256::zero_spec(),
        !after_merge ==> final(block_env).difficulty == header.difficulty
            && final(block_env).prevrandao is None,
        final(block_env).basefee == (match header.base_fee_per_gas {
            Some(f) => f,
            None => 0,
        }),
        final(block_env).gas_limit == header.gas_limit,
        final(block_env).blob_excess_gas_and_price == (match header.excess_blob_gas {
            Some(e) => Some(
                BlobExcessGasAndPrice { excess_blob_gas: e, blob_gasprice: blob_gasprice_of(e) },
            ),
            None => old(block_env).blob_excess_gas_and_price,
        }),
{
    block_env.number = header.number;
    block_env.coinbase = coinbase;
    block_env.timestamp = header.timestamp;
    if after_merge {
        block_env.prevrandao = Some(header.mix_hash);
        block_env.difficulty = U256::zero();
    } else {
        block_env.difficulty = header.difficulty;
        block_env.prevrandao = None;
    }
    block_env.basefee = match header.base_fee_per_gas {
        Some(f) => f,
        None => 0,
    };
    block_env.gas_limit = header.gas_limit;
    if let Some(excess_blob_gas) = header.excess_blob_gas {
        let blob_gasprice = calc_blob_gasprice(excess_blob_gas);
        block_env.blob_excess_gas_and_price = Some(
            BlobExcessGasAndPrice { excess_blob_gas, blob_gasprice },
        );
    }
}


/// Derive the header of the speculative child block from the latest
/// header: next number, the next slot's timestamp, the EIP-1559 base
/// fee and the EIP-4844 excess blob gas of the child; everything else
/// carries over.
pub fn derive_pending_header(latest: &Header, p: BaseFeeParams) -> (r: Header)
    requires
        latest.number < u64::MAX,
        latest.timestamp <= u64::MAX - 12,
        p.elasticity_multiplier >= 1,
        p.max_change_denominator >= 1,
        latest.base_fee_per_gas matches Some(f) ==> spec_gas_target(latest.gas_limit, p) >= 1
            && spec_next_block_base_fee(latest.gas_used, latest.gas_limit, f, p) <= u64::MAX,
        (match (latest.excess_blob_gas, latest.blob_gas_used) {
            (Some(e), Some(u)) => e + u <= u64::MAX,
            _ => true,
        }),
    ensures
        r.number == latest.number + 1,
        r.timestamp == latest.timestamp + 12,
        r.base_fee_per_gas == (match latest.base_fee_per_gas {
            Some(f) => Some(
                spec_next_block_base_fee(latest.gas_used, latest.gas_limit, f, p) as u64,
            ),
            None => None::<u64>,
        }),
        r.excess_blob_gas == (match (latest.excess_blob_gas, latest.blob_gas_used) {
            (Some(e), Some(u)) => Some(spec_next_block_excess_blob_gas(e, u) as u64),
            _ => None::<u64>,
        }),
        r.parent_hash == latest.parent_hash,
        r.gas_limit == latest.gas_limit,
        r.beneficiary == latest.beneficiary,
        r.mix_hash == latest.mix_hash,
        r.difficulty == latest.difficulty,
{
    let base_fee_per_gas = match latest.base_fee_per_gas {
        Some(f) => Some(next_block_base_fee(latest.gas_used, latest.gas_limit, f, p)),
        None => None,
    };
    let excess_blob_gas = match (latest.excess_blob_gas, latest.blob_gas_used) {
        (Some(e), Some(u)) => Some(next_block_excess_blob_gas(e, u)),
        _ => None,
    };
    let mut extra_data: Vec<u8> = Vec::new();
    let mut k: usize = 0;
    while k < latest.extra_data.len()
        invariant
            k <= latest.extra_data@.len(),
            extra_data@ == latest.extra_data@.subrange(0, k as int),
        decreases latest.extra_data@.len() - k,
    {
        extra_data.push(latest.extra_data[k]);
        proof {
            assert(extra_data@ =~= latest.extra_data@.subrange(0, k as int + 1));
        }
        k = k + 1;
    }
    Header {
        parent_hash: latest.parent_hash,
        ommers_hash: latest.ommers_hash,
        beneficiary: latest.beneficiary,
        state_root: latest.state_root,
        transactions_root: latest.transactions_root,
        receipts_root: latest.receipts_root,
        withdrawals_root: latest.withdrawals_root,
        logs_bloom: latest.logs_bloom,
        difficulty: latest.difficulty,
        number: latest.number + 1,
        gas_limit: latest.gas_limit,
        gas_used: latest.gas_used,
        timestamp: latest.timestamp + 12,
        mix_hash: latest.mix_hash,
        nonce: latest.nonce,
        base_fee_per_gas,
        blob_gas_used: latest.blob_gas_used,
        excess_blob_gas,
        parent_beacon_block_root: latest.parent_beacon_block_root,
        requests_root: latest.requests_root,
        extra_data,
    }
}

} // verus!
