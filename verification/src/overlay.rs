//! The memory-overlay state view: recently executed but uncommitted
//! blocks layered over a historical state provider. Every read scans the
//! in-memory blocks newest-first and falls back to the historical
//! provider; the first match wins.

use vstd::prelude::*;
use crate::primitives::{Address, B256};
use crate::state::{
    bytecode_eq, Account, AccountProof, BundleState, Bytecode, ProviderError, ProviderResult,
    StateReader, TrieUpdates,
};

verus! {

broadcast use
    vstd::seq_lib::group_filter_ensures,
    Seq::lemma_filter_push,
    Seq::lemma_push_map_commute,
;

/// What executing one block produced: account snapshots (`None` marks a
/// destroyed account), storage diffs and newly deployed code.
#[derive(PartialEq, Eq, Debug)]
pub struct ExecutionOutput {
    pub accounts: Vec<(Address, Option<Account>)>,
    pub storage_slots: Vec<(Address, B256, B256)>,
    pub bytecodes: Vec<(B256, Bytecode)>,
}

pub open spec fn output_account(
    entries: Seq<(Address, Option<Account>)>,
    a: Address,
) -> Option<Option<Account>>
    decreases entries.len(),
{
    if entries.len() == 0 {
        None
    } else if entries[0].0 == a {
        Some(entries[0].1)
    } else {
        output_account(entries.drop_first(), a)
    }
}

impl ExecutionOutput {
    pub open spec fn spec_account(self, a: Address) -> Option<Option<Account>> {
        output_account(self.accounts@, a)
    }

    pub open spec fn spec_storage(self, a: Address, k: B256) -> Option<B256> {
        crate::state::spec_slot_lookup(self.storage_slots@, a, k)
    }

    pub open spec fn spec_bytecode(self, h: B256) -> Option<Bytecode> {
        crate::state::spec_code_lookup(self.bytecodes@, h)
    }

    /// The account change this block recorded for `a`, if any; the inner
    /// `None` is the tombstone of a destroyed account.
    pub fn account(&self, a: &Address) -> (r: Option<Option<Account>>)
        ensures
            r == self.spec_account(*a),
    {
        let mut i: usize = 0;
        proof {
            assert(self.accounts@.skip(0) =~= self.accounts@);
        }
        while i < self.accounts.len()
            invariant
                i <= self.accounts@.len(),
                output_account(self.accounts@, *a) == output_account(
                    self.accounts@.skip(i as int),
                    *a,
                ),
            decreases self.accounts@.len() - i,
        {
            proof {
                assert(self.accounts@.skip(i as int).drop_first() =~= self.accounts@.skip(
                    i as int + 1,
                ));
                assert(self.accounts@.skip(i as int)[0] == self.accounts@[i as int]);
            }
            if self.accounts[i].0 == *a {
                return Some(self.accounts[i].1);
            }
            i = i + 1;
        }
        proof {
            assert(self.accounts@.skip(i as int) =~= Seq::<(Address, Option<Account>)>::empty());
        }
        None
    }

    /// The storage change this block recorded for the slot, if any.
    pub fn storage(&self, a: &Address, k: &B256) -> (r: Option<B256>)
        ensures
            r == self.spec_storage(*a, *k),
    {
        let mut i: usize = 0;
        proof {
            assert(self.storage_slots@.skip(0) =~= self.storage_slots@);
        }
        while i < self.storage_slots.len()
            invariant
                i <= self.storage_slots@.len(),
                crate::state::spec_slot_lookup(self.storage_slots@, *a, *k)
                    == crate::state::spec_slot_lookup(self.storage_slots@.skip(i as int), *a, *k),
            decreases self.storage_slots@.len() - i,
        {
            proof {
                assert(self.storage_slots@.skip(i as int).drop_first() =~= self.storage_slots@.skip(
                    i as int + 1,
                ));
                assert(self.storage_slots@.skip(i as int)[0] == self.storage_slots@[i as int]);
            }
            if self.storage_slots[i].0 == *a && self.storage_slots[i].1 == *k {
                return Some(self.storage_slots[i].2);
            }
            i = i + 1;
        }
        proof {
            assert(self.storage_slots@.skip(i as int) =~= Seq::<(Address, B256, B256)>::empty());
        }
        None
    }

    /// The code this block deployed under `h`, if any.
    pub fn bytecode(&self, h: &B256) -> (r: Option<Bytecode>)
        ensures
            bytecode_eq(r, self.spec_bytecode(*h)),
    {
        let mut i: usize = 0;
        proof {
            assert(self.bytecodes@.skip(0) =~= self.bytecodes@);
        }
        while i < self.bytecodes.len()
            invariant
                i <= self.bytecodes@.len(),
                crate::state::spec_code_lookup(self.bytecodes@, *h)
                    == crate::state::spec_code_lookup(self.bytecodes@.skip(i as int), *h),
            decreases self.bytecodes@.len() - i,
        {
            proof {
                assert(self.bytecodes@.skip(i as int).drop_first() =~= self.bytecodes@.skip(
                    i as int + 1,
                ));
                assert(self.bytecodes@.skip(i as int)[0] == self.bytecodes@[i as int]);
            }
            if self.bytecodes[i].0 == *h {
                return Some(self.bytecodes[i].1.clone());
            }
            i = i + 1;
        }
        proof {
            assert(self.bytecodes@.skip(i as int) =~= Seq::<(B256, Bytecode)>::empty());
        }
        None
    }
}

/// An executed but not yet committed block: its sealed header identity
/// and the bundle state it produced.
#[derive(PartialEq, Eq, Debug)]
pub struct ExecutedBlock {
    pub number: u64,
    pub hash: B256,
    pub execution_output: ExecutionOutput,
}

/// The newest in-memory account definition for `a`, scanning
/// newest-first.
pub open spec fn mem_account(blocks: Seq<ExecutedBlock>, a: Address) -> Option<Option<Account>>
    decreases blocks.len(),
{
    if blocks.len() == 0 {
        None
    } else {
        match blocks.last().execution_output.spec_account(a) {
            Some(v) => Some(v),
            None => mem_account(blocks.drop_last(), a),
        }
    }
}

/// The newest in-memory storage definition for the slot, newest-first.
pub open spec fn mem_storage(blocks: Seq<ExecutedBlock>, a: Address, k: B256) -> Option<B256>
    decreases blocks.len(),
{
    if blocks.len() == 0 {
        None
    } else {
        match blocks.last().execution_output.spec_storage(a, k) {
            Some(v) => Some(v),
            None => mem_storage(blocks.drop_last(), a, k),
        }
    }
}

/// The newest in-memory code definition for `h`, newest-first.
pub open spec fn mem_bytecode(blocks: Seq<ExecutedBlock>, h: B256) -> Option<Bytecode>
    decreases blocks.len(),
{
    if blocks.len() == 0 {
        None
    } else {
        match blocks.last().execution_output.spec_bytecode(h) {
            Some(v) => Some(v),
            None => mem_bytecode(blocks.drop_last(), h),
        }
    }
}

/// The hash of the newest in-memory block numbered `n`.
pub open spec fn mem_block_hash(blocks: Seq<ExecutedBlock>, n: u64) -> Option<B256>
    decreases blocks.len(),
{
    if blocks.len() == 0 {
        None
    } else if blocks.last().number == n {
        Some(blocks.last().hash)
    } else {
        mem_block_hash(blocks.drop_last(), n)
    }
}

/// The in-memory blocks with numbers in `[start, end)`, oldest first.
pub open spec fn mem_blocks_in_range(
    blocks: Seq<ExecutedBlock>,
    start: u64,
    end: u64,
) -> Seq<ExecutedBlock> {
    blocks.filter(|b: ExecutedBlock| start <= b.number && b.number < end)
}

/// Their hashes, oldest first.
pub open spec fn mem_range_hashes(blocks: Seq<ExecutedBlock>, start: u64, end: u64) -> Seq<B256> {
    mem_blocks_in_range(blocks, start, end).map_values(|b: ExecutedBlock| b.hash)
}

/// The number of the oldest in-memory block in `[start, end)`, if any:
/// where the historical range query ends.
pub open spec fn mem_earliest(blocks: Seq<ExecutedBlock>, start: u64, end: u64) -> Option<u64> {
    if mem_blocks_in_range(blocks, start, end).len() > 0 {
        Some(mem_blocks_in_range(blocks, start, end)[0].number)
    } else {
        None
    }
}

/// A state provider that layers in-memory executed blocks (ordered
/// oldest-to-newest) over a historical provider for fallback lookups.
pub struct MemoryOverlayStateProvider<H> {
    /// The collection of executed parent blocks, oldest first.
    in_memory: Vec<ExecutedBlock>,
    /// Historical state provider for state lookups that are not found in
    /// in-memory blocks.
    historical: H,
}

impl<H> MemoryOverlayStateProvider<H> {
    /// The in-memory blocks, oldest first.
    pub closed spec fn blocks(self) -> Seq<ExecutedBlock> {
        self.in_memory@
    }

    /// The historical fallback provider.
    pub closed spec fn hist(self) -> H {
        self.historical
    }

    /// Create new memory overlay state provider.
    pub fn new(in_memory: Vec<ExecutedBlock>, historical: H) -> (r: MemoryOverlayStateProvider<H>)
        ensures
            r.blocks() == in_memory@,
            r.hist() == historical,
    {
        MemoryOverlayStateProvider { in_memory, historical }
    }
}

impl<H: StateReader> MemoryOverlayStateProvider<H> {
    /// Read an account: the newest in-memory definition wins, including
    /// the tombstone of a destroyed account; otherwise the historical
    /// provider answers.
    pub fn basic_account(&self, address: Address) -> (r: ProviderResult<Option<Account>>)
        ensures
            mem_account(self.blocks(), address) matches Some(v) ==> r == Ok::<Option<Account>, ProviderError>(v),
            mem_account(self.blocks(), address) is None ==> (r matches Ok(v) ==> v
                == self.hist().spec_account(address)),
    {
        let mut i: usize = self.in_memory.len();
        proof {
            assert(self.in_memory@.take(i as int) =~= self.in_memory@);
        }
        while i > 0
            invariant
                i <= self.in_memory@.len(),
                mem_account(self.in_memory@, address) == mem_account(
                    self.in_memory@.take(i as int),
                    address,
                ),
            decreases i,
        {
            i = i - 1;
            proof {
                assert(self.in_memory@.take(i as int + 1).drop_last() =~= self.in_memory@.take(
                    i as int,
                ));
                assert(self.in_memory@.take(i as int + 1).last() == self.in_memory@[i as int]);
            }
            if let Some(account) = self.in_memory[i].execution_output.account(&address) {
                return Ok(account);
            }
        }
        self.historical.basic_account(address)
    }

    /// Read a storage slot, newest-first, else delegate.
    pub fn storage(&self, address: Address, storage_key: B256) -> (r: ProviderResult<Option<B256>>)
        ensures
            mem_storage(self.blocks(), address, storage_key) matches Some(v) ==> r == Ok::<Option<B256>, ProviderError>(Some(v)),
            mem_storage(self.blocks(), address, storage_key) is None ==> (r matches Ok(v) ==> v
                == self.hist().spec_storage(address, storage_key)),
    {
        let mut i: usize = self.in_memory.len();
        proof {
            assert(self.in_memory@.take(i as int) =~= self.in_memory@);
        }
        while i > 0
            invariant
                i <= self.in_memory@.len(),
                mem_storage(self.in_memory@, address, storage_key) == mem_storage(
                    self.in_memory@.take(i as int),
                    address,
                    storage_key,
                ),
            decreases i,
        {
            i = i - 1;
            proof {
                assert(self.in_memory@.take(i as int + 1).drop_last() =~= self.in_memory@.take(
                    i as int,
                ));
                assert(self.in_memory@.take(i as int + 1).last() == self.in_memory@[i as int]);
            }
            if let Some(value) = self.in_memory[i].execution_output.storage(
                &address,
                &storage_key,
            ) {
                return Ok(Some(value));
            }
        }
        self.historical.storage(address, storage_key)
    }

    /// Read contract code by hash, newest-first, else delegate.
    pub fn bytecode_by_hash(&self, code_hash: B256) -> (r: ProviderResult<Option<Bytecode>>)
        ensures
            mem_bytecode(self.blocks(), code_hash) matches Some(b) ==> (r matches Ok(v)
                && bytecode_eq(v, Some(b))),
            mem_bytecode(self.blocks(), code_hash) is None ==> (r matches Ok(v) ==> bytecode_eq(
                v,
                self.hist().spec_bytecode(code_hash),
            )),
    {
        let mut i: usize = self.in_memory.len();
        proof {
            assert(self.in_memory@.take(i as int) =~= self.in_memory@);
        }
        while i > 0
            invariant
                i <= self.in_memory@.len(),
                mem_bytecode(self.in_memory@, code_hash) == mem_bytecode(
                    self.in_memory@.take(i as int),
                    code_hash,
                ),
            decreases i,
        {
            i = i - 1;
            proof {
                assert(self.in_memory@.take(i as int + 1).drop_last() =~= self.in_memory@.take(
                    i as int,
                ));
                assert(self.in_memory@.take(i as int + 1).last() == self.in_memory@[i as int]);
            }
            if let Some(contract) = self.in_memory[i].execution_output.bytecode(&code_hash) {
                return Ok(Some(contract));
            }
        }
        self.historical.bytecode_by_hash(code_hash)
    }

    /// Read a block hash: the newest in-memory block with that number
    /// wins, else delegate.
    pub fn block_hash(&self, number: u64) -> (r: ProviderResult<Option<B256>>)
        ensures
            mem_block_hash(self.blocks(), number) matches Some(h) ==> r == Ok::<Option<B256>, ProviderError>(Some(h)),
            mem_block_hash(self.blocks(), number) is None ==> (r matches Ok(v) ==> v
                == self.hist().spec_block_hash(number)),
    {
        let mut i: usize = self.in_memory.len();
        proof {
            assert(self.in_memory@.take(i as int) =~= self.in_memory@);
        }
        while i > 0
            invariant
                i <= self.in_memory@.len(),
                mem_block_hash(self.in_memory@, number) == mem_block_hash(
                    self.in_memory@.take(i as int),
                    number,
                ),
            decreases i,
        {
            i = i - 1;
            proof {
                assert(self.in_memory@.take(i as int + 1).drop_last() =~= self.in_memory@.take(
                    i as int,
                ));
                assert(self.in_memory@.take(i as int + 1).last() == self.in_memory@[i as int]);
            }
            if self.in_memory[i].number == number {
                return Ok(Some(self.in_memory[i].hash));
            }
        }
        self.historical.block_hash(number)
    }

    /// Canonical hashes of `[start, end)`: the historical hashes up to
    /// the oldest in-memory block in range (or the whole range if none),
    /// followed by the in-memory hashes oldest-first.
    pub fn canonical_hashes_range(&self, start: u64, end: u64) -> (r: ProviderResult<Vec<B256>>)
        ensures
            r matches Ok(v) ==> v@ == self.hist().spec_canonical_hashes(
                start,
                match mem_earliest(self.blocks(), start, end) {
                    Some(n) => n,
                    None => end,
                },
            ) + mem_range_hashes(self.blocks(), start, end),
    {
        let ghost pred = |b: ExecutedBlock| start <= b.number && b.number < end;
        let mut in_memory_hashes: Vec<B256> = Vec::new();
        let mut earliest_block_number: Option<u64> = None;
        let mut i: usize = 0;
        proof {
            assert(self.in_memory@.take(0) =~= Seq::<ExecutedBlock>::empty());
            assert(self.in_memory@.take(0).filter(pred) =~= Seq::<ExecutedBlock>::empty());
        }
        while i < self.in_memory.len()
            invariant
                i <= self.in_memory@.len(),
                pred == (|b: ExecutedBlock| start <= b.number && b.number < end),
                in_memory_hashes@ == self.in_memory@.take(i as int).filter(pred).map_values(
                    |b: ExecutedBlock| b.hash,
                ),
                earliest_block_number == (if self.in_memory@.take(i as int).filter(pred).len()
                    > 0 {
                    Some(self.in_memory@.take(i as int).filter(pred)[0].number)
                } else {
                    None::<u64>
                }),
            decreases self.in_memory@.len() - i,
        {
            proof {
                assert(self.in_memory@.take(i as int + 1) =~= self.in_memory@.take(i as int).push(
                    self.in_memory@[i as int],
                ));
            }
            let b_number = self.in_memory[i].number;
            if start <= b_number && b_number < end {
                in_memory_hashes.push(self.in_memory[i].hash);
                if earliest_block_number.is_none() {
                    earliest_block_number = Some(b_number);
                }
            }
            i = i + 1;
        }
        proof {
            assert(self.in_memory@.take(i as int) =~= self.in_memory@);
        }
        let hist_end = match earliest_block_number {
            Some(n) => n,
            None => end,
        };
        let mut hashes = match self.historical.canonical_hashes_range(start, hist_end) {
            Ok(v) => v,
            Err(e) => {
                return Err(e);
            },
        };
        let ghost hist_part = hashes@;
        let mut j: usize = 0;
        while j < in_memory_hashes.len()
            invariant
                j <= in_memory_hashes@.len(),
                hashes@ == hist_part + in_memory_hashes@.subrange(0, j as int),
            decreases in_memory_hashes@.len() - j,
        {
            hashes.push(in_memory_hashes[j]);
            proof {
                assert(hashes@ =~= hist_part + in_memory_hashes@.subrange(0, j as int + 1));
            }
            j = j + 1;
        }
        proof {
            assert(in_memory_hashes@.subrange(0, j as int) =~= in_memory_hashes@);
        }
        Ok(hashes)
    }

    /// The state root over a non-empty overlay is the responsibility of
    /// a specialized pathway that reconciles in-memory tries with
    /// historical tries; with an empty overlay the historical provider
    /// answers.
    pub fn state_root(&self, bundle: &BundleState) -> (r: ProviderResult<B256>)
        ensures
            self.blocks().len() > 0 ==> r == Err::<B256, ProviderError>(
                ProviderError::StateRootUnsupported,
            ),
            self.blocks().len() == 0 ==> (r matches Ok(v) ==> v == self.hist().spec_state_root(
                *bundle,
            )),
    {
        if self.in_memory.len() > 0 {
            return Err(ProviderError::StateRootUnsupported);
        }
        self.historical.state_root(bundle)
    }

    /// As [`Self::state_root`], with the trie updates to commit.
    pub fn state_root_with_updates(&self, bundle: &BundleState) -> (r: ProviderResult<
        (B256, TrieUpdates),
    >)
        ensures
            self.blocks().len() > 0 ==> r == Err::<(B256, TrieUpdates), ProviderError>(
                ProviderError::StateRootUnsupported,
            ),
            self.blocks().len() == 0 ==> (r matches Ok(v) ==> v.0 == self.hist().spec_state_root(
                *bundle,
            )),
    {
        if self.in_memory.len() > 0 {
            return Err(ProviderError::StateRootUnsupported);
        }
        self.historical.state_root_with_updates(bundle)
    }

    /// A proof over a non-empty overlay is a collaborator
    /// responsibility; with an empty overlay the historical provider
    /// answers.
    pub fn account_proof(&self, address: Address, slots: &Vec<B256>) -> (r: ProviderResult<
        AccountProof,
    >)
        ensures
            self.blocks().len() > 0 ==> r == Err::<AccountProof, ProviderError>(
                ProviderError::ProofUnsupported,
            ),
            self.blocks().len() == 0 ==> (r matches Ok(v) ==> v.address == address),
    {
        if self.in_memory.len() > 0 {
            return Err(ProviderError::ProofUnsupported);
        }
        self.historical.account_proof(address, slots)
    }
}

impl<H: StateReader> StateReader for MemoryOverlayStateProvider<H> {
    /// The overlay's abstract account table: the newest in-memory
    /// definition, else the historical one.
    closed spec fn spec_account(&self, address: Address) -> Option<Account> {
        match mem_account(self.in_memory@, address) {
            Some(v) => v,
            None => self.historical.spec_account(address),
        }
    }

    closed spec fn spec_storage(&self, address: Address, key: B256) -> Option<B256> {
        match mem_storage(self.in_memory@, address, key) {
            Some(v) => Some(v),
            None => self.historical.spec_storage(address, key),
        }
    }

    closed spec fn spec_bytecode(&self, code_hash: B256) -> Option<Bytecode> {
        match mem_bytecode(self.in_memory@, code_hash) {
            Some(b) => Some(b),
            None => self.historical.spec_bytecode(code_hash),
        }
    }

    closed spec fn spec_block_hash(&self, number: u64) -> Option<B256> {
        match mem_block_hash(self.in_memory@, number) {
            Some(h) => Some(h),
            None => self.historical.spec_block_hash(number),
        }
    }

    closed spec fn spec_canonical_hashes(&self, start: u64, end: u64) -> Seq<B256> {
        self.historical.spec_canonical_hashes(
            start,
            match mem_earliest(self.in_memory@, start, end) {
                Some(n) => n,
                None => end,
            },
        ) + mem_range_hashes(self.in_memory@, start, end)
    }

    closed spec fn spec_state_root(&self, bundle: BundleState) -> B256 {
        self.historical.spec_state_root(bundle)
    }

    fn basic_account(&self, address: Address) -> (r: ProviderResult<Option<Account>>) {
        MemoryOverlayStateProvider::basic_account(self, address)
    }

    fn storage(&self, address: Address, storage_key: B256) -> (r: ProviderResult<Option<B256>>) {
        MemoryOverlayStateProvider::storage(self, address, storage_key)
    }

    fn bytecode_by_hash(&self, code_hash: B256) -> (r: ProviderResult<Option<Bytecode>>) {
        MemoryOverlayStateProvider::bytecode_by_hash(self, code_hash)
    }

    fn block_hash(&self, number: u64) -> (r: ProviderResult<Option<B256>>) {
        MemoryOverlayStateProvider::block_hash(self, number)
    }

    fn canonical_hashes_range(&self, start: u64, end: u64) -> (r: ProviderResult<Vec<B256>>) {
        MemoryOverlayStateProvider::canonical_hashes_range(self, start, end)
    }

    fn state_root(&self, bundle: &BundleState) -> (r: ProviderResult<B256>) {
        MemoryOverlayStateProvider::state_root(self, bundle)
    }

    fn state_root_with_updates(&self, bundle: &BundleState) -> (r: ProviderResult<
        (B256, TrieUpdates),
    >) {
        MemoryOverlayStateProvider::state_root_with_updates(self, bundle)
    }

    fn account_proof(&self, address: Address, slots: &Vec<B256>) -> (r: ProviderResult<
        AccountProof,
    >) {
        MemoryOverlayStateProvider::account_proof(self, address, slots)
    }
}

} // verus!
