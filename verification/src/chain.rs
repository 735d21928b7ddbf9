//! Chain specification: hard-fork activation by timestamp and the
//! base-fee parameters the pending-block environment derives from.

use vstd::prelude::*;

verus! {

/// Identifier of the active hard fork, oldest first.
#[derive(Clone, Copy, PartialEq, Eq, Structural, Debug)]
pub enum SpecId {
    Frontier,
    Merge,
    Shanghai,
    Cancun,
    Prague,
}

impl SpecId {
    /// Position of the fork in chain history, used for activation
    /// comparisons.
    pub open spec fn rank_spec(self) -> u64 {
        match self {
            SpecId::Frontier => 0,
            SpecId::Merge => 1,
            SpecId::Shanghai => 2,
            SpecId::Cancun => 3,
            SpecId::Prague => 4,
        }
    }

    pub fn rank(self) -> (r: u64)
        ensures
            r == self.rank_spec(),
    {
        match self {
            SpecId::Frontier => 0,
            SpecId::Merge => 1,
            SpecId::Shanghai => 2,
            SpecId::Cancun => 3,
            SpecId::Prague => 4,
        }
    }

    /// Whether `self` is the same fork as `other` or a later one.
    pub fn is_enabled_in(self, other: SpecId) -> (r: bool)
        ensures
            r == (self.rank_spec() >= other.rank_spec()),
    {
        self.rank() >= other.rank()
    }
}

/// Parameters of the EIP-1559 base-fee update rule.
#[derive(Clone, Copy, PartialEq, Eq, Structural, Debug)]
pub struct BaseFeeParams {
    /// Bounds how fast the base fee may change between blocks.
    pub max_change_denominator: u64,
    /// Ratio of the gas limit to the gas target.
    pub elasticity_multiplier: u64,
}

impl BaseFeeParams {
    /// The Ethereum mainnet parameters.
    pub fn ethereum() -> (r: BaseFeeParams)
        ensures
            r.max_change_denominator == 8,
            r.elasticity_multiplier == 2,
    {
        BaseFeeParams { max_change_denominator: 8, elasticity_multiplier: 2 }
    }
}

/// Activation table of the hard forks the pipeline observes, keyed by
/// block timestamp. `None` means the fork never activates.
#[derive(Clone, PartialEq, Eq, Structural, Debug)]
pub struct ChainSpec {
    pub chain_id: u64,
    pub shanghai_time: Option<u64>,
    pub cancun_time: Option<u64>,
    pub prague_time: Option<u64>,
    pub base_fee_params: BaseFeeParams,
}

impl ChainSpec {
    pub open spec fn is_shanghai_active_at_timestamp_spec(self, timestamp: u64) -> bool {
        match self.shanghai_time {
            Some(t) => t <= timestamp,
            None => false,
        }
    }

    /// Whether the Shanghai fork is active for a block at `timestamp`.
    pub fn is_shanghai_active_at_timestamp(&self, timestamp: u64) -> (r: bool)
        ensures
            r == self.is_shanghai_active_at_timestamp_spec(timestamp),
    {
        match self.shanghai_time {
            Some(t) => t <= timestamp,
            None => false,
        }
    }

    pub open spec fn is_cancun_active_at_timestamp_spec(self, timestamp: u64) -> bool {
        match self.cancun_time {
            Some(t) => t <= timestamp,
            None => false,
        }
    }

    /// Whether the Cancun fork is active for a block at `timestamp`.
    pub fn is_cancun_active_at_timestamp(&self, timestamp: u64) -> (r: bool)
        ensures
            r == self.is_cancun_active_at_timestamp_spec(timestamp),
    {
        match self.cancun_time {
            Some(t) => t <= timestamp,
            None => false,
        }
    }

    pub open spec fn is_prague_active_at_timestamp_spec(self, timestamp: u64) -> bool {
        match self.prague_time {
            Some(t) => t <= timestamp,
            None => false,
        }
    }

    /// Whether the Prague fork is active for a block at `timestamp`.
    pub fn is_prague_active_at_timestamp(&self, timestamp: u64) -> (r: bool)
        ensures
            r == self.is_prague_active_at_timestamp_spec(timestamp),
    {
        match self.prague_time {
            Some(t) => t <= timestamp,
            None => false,
        }
    }

    /// The base-fee parameters for a block at `timestamp`; the table is
    /// constant over the forks modelled here.
    pub fn base_fee_params_at_timestamp(&self, _timestamp: u64) -> (r: BaseFeeParams)
        ensures
            r == self.base_fee_params,
    {
        self.base_fee_params
    }
}

} // verus!
