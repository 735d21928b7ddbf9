//! Tests of the environment filling, protocol constants and the
//! peer-to-peer decision kernels.

use pending_block::chain::SpecId;
use pending_block::evm::{BlobExcessGasAndPrice, BlockEnv};
use pending_block::header::{fill_block_env_with_coinbase, Bloom, Header};
use pending_block::p2p::{effective_retry_count, single_body_response_ok, trusted_peers_ok};
use pending_block::primitives::{
    beacon_roots_address, empty_ommer_root_hash, empty_root_hash, system_address,
    withdrawal_request_predeploy_address, Address, B256, U256,
};

fn word(n: u64) -> B256 {
    B256 { w0: 0, w1: 0, w2: 0, w3: n }
}

#[test]
fn protocol_constants_match_their_known_bytes() {
    assert_eq!(
        system_address(),
        Address { hi: 0xffffffff, lo: 0xfffffffffffffffffffffffffffffffe }
    );
    assert_eq!(
        beacon_roots_address(),
        Address { hi: 0x000f3df6, lo: 0xd732807ef1319fb7b8bb8522d0beac02 }
    );
    assert_eq!(
        withdrawal_request_predeploy_address(),
        Address { hi: 0x00000961, lo: 0xef480eb55e80d19ad83579a64c007002 }
    );
    assert_eq!(empty_root_hash().w0, 0x56e81f171bcc55a6);
    assert_eq!(empty_ommer_root_hash().w0, 0x1dcc4de8dec75d7a);
}

#[test]
fn spec_id_ordering() {
    assert!(SpecId::Cancun.is_enabled_in(SpecId::Merge));
    assert!(SpecId::Cancun.is_enabled_in(SpecId::Cancun));
    assert!(!SpecId::Shanghai.is_enabled_in(SpecId::Cancun));
}

#[test]
fn fill_block_env_post_merge() {
    let header = Header {
        parent_hash: word(1),
        ommers_hash: word(2),
        beneficiary: Address { hi: 0, lo: 3 },
        state_root: word(3),
        transactions_root: word(4),
        receipts_root: word(5),
        withdrawals_root: None,
        logs_bloom: Bloom::zero(),
        difficulty: U256 { w0: 0, w1: 0, w2: 0, w3: 9 },
        number: 44,
        gas_limit: 30_000_000,
        gas_used: 0,
        timestamp: 1_700_000_000,
        mix_hash: word(77),
        nonce: 0,
        base_fee_per_gas: Some(12),
        blob_gas_used: Some(0),
        excess_blob_gas: Some(0),
        parent_beacon_block_root: None,
        requests_root: None,
        extra_data: Vec::new(),
    };
    let mut env = BlockEnv {
        number: 0,
        coinbase: Address { hi: 0, lo: 0 },
        timestamp: 0,
        prevrandao: None,
        difficulty: U256::zero(),
        basefee: 0,
        gas_limit: 0,
        blob_excess_gas_and_price: None,
    };
    let coinbase = Address { hi: 0, lo: 0xbeef };
    fill_block_env_with_coinbase(&mut env, &header, true, coinbase);
    assert_eq!(env.number, 44);
    assert_eq!(env.coinbase, coinbase);
    assert_eq!(env.prevrandao, Some(word(77)));
    assert_eq!(env.difficulty, U256::zero());
    assert_eq!(env.basefee, 12);
    assert_eq!(env.gas_limit, 30_000_000);
    // zero excess blob gas gives the minimum blob gas price of one
    assert_eq!(
        env.blob_excess_gas_and_price,
        Some(BlobExcessGasAndPrice { excess_blob_gas: 0, blob_gasprice: 1 })
    );
}

#[test]
fn blob_gasprice_grows_with_excess() {
    let mut header_low = Header {
        parent_hash: word(1),
        ommers_hash: word(2),
        beneficiary: Address { hi: 0, lo: 3 },
        state_root: word(3),
        transactions_root: word(4),
        receipts_root: word(5),
        withdrawals_root: None,
        logs_bloom: Bloom::zero(),
        difficulty: U256::zero(),
        number: 44,
        gas_limit: 30_000_000,
        gas_used: 0,
        timestamp: 1_700_000_000,
        mix_hash: word(77),
        nonce: 0,
        base_fee_per_gas: Some(12),
        blob_gas_used: Some(0),
        excess_blob_gas: Some(10_000_000),
        parent_beacon_block_root: None,
        requests_root: None,
        extra_data: Vec::new(),
    };
    let mut env = BlockEnv {
        number: 0,
        coinbase: Address { hi: 0, lo: 0 },
        timestamp: 0,
        prevrandao: None,
        difficulty: U256::zero(),
        basefee: 0,
        gas_limit: 0,
        blob_excess_gas_and_price: None,
    };
    let coinbase = Address { hi: 0, lo: 0xbeef };
    fill_block_env_with_coinbase(&mut env, &header_low, true, coinbase);
    let low = env.blob_excess_gas_and_price.unwrap().blob_gasprice;
    header_low.excess_blob_gas = Some(30_000_000);
    fill_block_env_with_coinbase(&mut env, &header_low, true, coinbase);
    let high = env.blob_excess_gas_and_price.unwrap().blob_gasprice;
    assert!(low >= 1);
    assert!(high > low);
}

#[test]
fn retry_count_is_at_least_one() {
    assert_eq!(effective_retry_count(0), 1);
    assert_eq!(effective_retry_count(5), 5);
}

#[test]
fn trusted_only_requires_a_trusted_peer() {
    assert!(!trusted_peers_ok(0, true));
    assert!(trusted_peers_ok(1, true));
    assert!(trusted_peers_ok(0, false));
}

#[test]
fn a_bodies_response_holds_exactly_one_body() {
    assert!(single_body_response_ok(1));
    assert!(!single_body_response_ok(0));
    assert!(!single_body_response_ok(2));
}
