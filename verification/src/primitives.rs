//! Plain-value models of the chain's primitive types: 256-bit words,
//! addresses, and the protocol constants the pipeline observes.

use vstd::prelude::*;

verus! {

/// A 256-bit word (hash, storage key or value, root) as four big-endian
/// 64-bit limbs: `w0` holds the most significant eight bytes.
#[derive(Clone, Copy, PartialEq, Eq, Structural, Debug)]
pub struct B256 {
    pub w0: u64,
    pub w1: u64,
    pub w2: u64,
    pub w3: u64,
}

impl B256 {
    /// The all-zero word.
    pub fn zero() -> (r: B256)
        ensures
            r == B256::zero_spec(),
    {
        B256 { w0: 0, w1: 0, w2: 0, w3: 0 }
    }

    pub open spec fn zero_spec() -> B256 {
        B256 { w0: 0, w1: 0, w2: 0, w3: 0 }
    }

    pub fn is_zero(&self) -> (r: bool)
        ensures
            r == (*self == B256::zero_spec()),
    {
        self.w0 == 0 && self.w1 == 0 && self.w2 == 0 && self.w3 == 0
    }

    /// The word whose low eight bytes hold `v` big-endian.
    pub fn from_u64(v: u64) -> (r: B256)
        ensures
            r == B256::from_u64_spec(v),
    {
        B256 { w0: 0, w1: 0, w2: 0, w3: v }
    }

    pub open spec fn from_u64_spec(v: u64) -> B256 {
        B256 { w0: 0, w1: 0, w2: 0, w3: v }
    }
}

/// A 160-bit account address: `hi` holds the most significant four bytes,
/// `lo` the remaining sixteen.
#[derive(Clone, Copy, PartialEq, Eq, Structural, Debug)]
pub struct Address {
    pub hi: u32,
    pub lo: u128,
}

/// The EIP-2935 block-hash history predeploy,
/// `0x0000f90827f1c53a10cb7a02335b175320002935`.
pub fn history_storage_address() -> (r: Address)
    ensures
        r == history_storage_address_spec(),
{
    Address { hi: 0x0000f908, lo: 0x27f1c53a10cb7a02335b175320002935 }
}

pub open spec fn history_storage_address_spec() -> Address {
    Address { hi: 0x0000f908, lo: 0x27f1c53a10cb7a02335b175320002935 }
}

/// Size of the EIP-2935 block-hash ring buffer.
pub const BLOCKHASH_SERVE_WINDOW: u64 = 8191;

/// The synthetic sender of protocol system calls,
/// `0xfffffffffffffffffffffffffffffffffffffffe`.
pub fn system_address() -> (r: Address)
    ensures
        r == system_address_spec(),
{
    Address { hi: 0xffffffff, lo: 0xfffffffffffffffffffffffffffffffe }
}

pub open spec fn system_address_spec() -> Address {
    Address { hi: 0xffffffff, lo: 0xfffffffffffffffffffffffffffffffe }
}

/// A 256-bit unsigned integer (account balance, difficulty) as four
/// big-endian 64-bit limbs.
#[derive(Clone, Copy, PartialEq, Eq, Structural, Debug)]
pub struct U256 {
    pub w0: u64,
    pub w1: u64,
    pub w2: u64,
    pub w3: u64,
}

impl U256 {
    /// The integer zero.
    pub fn zero() -> (r: U256)
        ensures
            r == U256::zero_spec(),
    {
        U256 { w0: 0, w1: 0, w2: 0, w3: 0 }
    }

    pub open spec fn zero_spec() -> U256 {
        U256 { w0: 0, w1: 0, w2: 0, w3: 0 }
    }
}

/// Maximum blob gas a block may consume (EIP-4844).
pub const MAX_DATA_GAS_PER_BLOCK: u64 = 786432;

/// The post-merge block nonce: always zero.
pub const BEACON_NONCE: u64 = 0;

/// Size in bytes of one encoded withdrawal request frame (EIP-7002):
/// a 20-byte source address, a 48-byte validator public key and an
/// 8-byte big-endian amount.
pub const WITHDRAWAL_REQUEST_SIZE: usize = 76;

/// The EIP-4788 beacon-roots predeploy,
/// `0x000f3df6d732807ef1319fb7b8bb8522d0beac02`.
pub fn beacon_roots_address() -> (r: Address)
    ensures
        r == beacon_roots_address_spec(),
{
    Address { hi: 0x000f3df6, lo: 0xd732807ef1319fb7b8bb8522d0beac02 }
}

pub open spec fn beacon_roots_address_spec() -> Address {
    Address { hi: 0x000f3df6, lo: 0xd732807ef1319fb7b8bb8522d0beac02 }
}

/// The EIP-7002 withdrawal-requests predeploy,
/// `0x00000961ef480eb55e80d19ad83579a64c007002`.
pub fn withdrawal_request_predeploy_address() -> (r: Address)
    ensures
        r == withdrawal_request_predeploy_address_spec(),
{
    Address { hi: 0x00000961, lo: 0xef480eb55e80d19ad83579a64c007002 }
}

pub open spec fn withdrawal_request_predeploy_address_spec() -> Address {
    Address { hi: 0x00000961, lo: 0xef480eb55e80d19ad83579a64c007002 }
}

/// Root of an empty trie,
/// `0x56e81f171bcc55a6ff8345e692c0f86e5b48e01b996cadc001622fb5e363b421`.
pub fn empty_root_hash() -> (r: B256)
    ensures
        r == empty_root_hash_spec(),
{
    B256 {
        w0: 0x56e81f171bcc55a6,
        w1: 0xff8345e692c0f86e,
        w2: 0x5b48e01b996cadc0,
        w3: 0x01622fb5e363b421,
    }
}

pub open spec fn empty_root_hash_spec() -> B256 {
    B256 {
        w0: 0x56e81f171bcc55a6,
        w1: 0xff8345e692c0f86e,
        w2: 0x5b48e01b996cadc0,
        w3: 0x01622fb5e363b421,
    }
}

/// Hash of an empty ommer list,
/// `0x1dcc4de8dec75d7aab85b567b6ccd41ad312451b948a7413f0a142fd40d49347`.
pub fn empty_ommer_root_hash() -> (r: B256)
    ensures
        r == empty_ommer_root_hash_spec(),
{
    B256 {
        w0: 0x1dcc4de8dec75d7a,
        w1: 0xab85b567b6ccd41a,
        w2: 0xd312451b948a7413,
        w3: 0xf0a142fd40d49347,
    }
}

pub open spec fn empty_ommer_root_hash_spec() -> B256 {
    B256 {
        w0: 0x1dcc4de8dec75d7a,
        w1: 0xab85b567b6ccd41a,
        w2: 0xd312451b948a7413,
        w3: 0xf0a142fd40d49347,
    }
}

} // verus!
