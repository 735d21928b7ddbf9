//! Tests of the memory-overlay state view: the newest in-memory
//! definition wins, the historical provider answers the rest.

use pending_block::overlay::{ExecutedBlock, ExecutionOutput, MemoryOverlayStateProvider};
use pending_block::primitives::{Address, B256, U256};
use pending_block::state::{Account, Bytecode, MockStateReader, ProviderError};

fn addr(n: u128) -> Address {
    Address { hi: 0, lo: n }
}

fn word(n: u64) -> B256 {
    B256 { w0: 0, w1: 0, w2: 0, w3: n }
}

fn account(nonce: u64) -> Account {
    Account { nonce, balance: U256::zero(), bytecode_hash: None }
}

fn block(number: u64, hash_word: u64, accounts: Vec<(Address, Option<Account>)>) -> ExecutedBlock {
    ExecutedBlock {
        number,
        hash: word(hash_word),
        execution_output: ExecutionOutput {
            accounts,
            storage_slots: Vec::new(),
            bytecodes: Vec::new(),
        },
    }
}

fn historical() -> MockStateReader {
    MockStateReader {
        accounts: vec![(addr(1), account(100)), (addr(9), account(900))],
        storage_slots: vec![(addr(1), word(5), word(55))],
        bytecodes: vec![(word(77), Bytecode { code: vec![0x60, 0x00] })],
        block_hashes: vec![(10, word(1010)), (11, word(1111)), (12, word(1212))],
    }
}

#[test]
fn newest_in_memory_definition_wins() {
    // two in-memory blocks redefine the same account; the newest wins
    let blocks = vec![
        block(13, 13, vec![(addr(1), Some(account(1)))]),
        block(14, 14, vec![(addr(1), Some(account(2)))]),
    ];
    let overlay = MemoryOverlayStateProvider::new(blocks, historical());
    let got = overlay.basic_account(addr(1)).unwrap();
    assert_eq!(got, Some(account(2)));
}

#[test]
fn tombstone_of_destroyed_account_is_returned() {
    let blocks = vec![block(13, 13, vec![(addr(1), None)])];
    let overlay = MemoryOverlayStateProvider::new(blocks, historical());
    let got = overlay.basic_account(addr(1)).unwrap();
    assert_eq!(got, None);
}

#[test]
fn lookup_falls_back_to_historical() {
    let blocks = vec![block(13, 13, vec![(addr(1), Some(account(1)))])];
    let overlay = MemoryOverlayStateProvider::new(blocks, historical());
    assert_eq!(overlay.basic_account(addr(9)).unwrap(), Some(account(900)));
    assert_eq!(overlay.storage(addr(1), word(5)).unwrap(), Some(word(55)));
    assert_eq!(
        overlay.bytecode_by_hash(word(77)).unwrap().unwrap().code,
        vec![0x60, 0x00]
    );
}

#[test]
fn block_hash_prefers_in_memory_blocks() {
    let blocks = vec![block(13, 113, Vec::new()), block(14, 114, Vec::new())];
    let overlay = MemoryOverlayStateProvider::new(blocks, historical());
    assert_eq!(overlay.block_hash(14).unwrap(), Some(word(114)));
    assert_eq!(overlay.block_hash(11).unwrap(), Some(word(1111)));
    assert_eq!(overlay.block_hash(99).unwrap(), None);
}

#[test]
fn canonical_hashes_concatenate_historical_and_in_memory() {
    // historical knows 10..=12, the overlay holds 13 and 14
    let blocks = vec![block(13, 113, Vec::new()), block(14, 114, Vec::new())];
    let overlay = MemoryOverlayStateProvider::new(blocks, historical());
    let hashes = overlay.canonical_hashes_range(11, 15).unwrap();
    assert_eq!(hashes, vec![word(1111), word(1212), word(113), word(114)]);
    // without an in-memory match the historical provider serves the
    // whole range
    let hashes = overlay.canonical_hashes_range(10, 12).unwrap();
    assert_eq!(hashes, vec![word(1010), word(1111)]);
}

#[test]
fn state_root_on_nonempty_overlay_is_unsupported() {
    let blocks = vec![block(13, 113, Vec::new())];
    let overlay = MemoryOverlayStateProvider::new(blocks, historical());
    let bundle = pending_block::state::BundleState { commits: Vec::new() };
    assert_eq!(overlay.state_root(&bundle), Err(ProviderError::StateRootUnsupported));
    let empty = MemoryOverlayStateProvider::new(Vec::new(), historical());
    assert_eq!(empty.state_root(&bundle), Ok(B256::zero()));
}
