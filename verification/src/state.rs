//! The historical state interface the overlay and the builder consume:
//! account, storage, bytecode and block-hash reads keyed by a block
//! hash, plus state-root and proof computation over a bundle of diffs.

use vstd::prelude::*;
use crate::primitives::{Address, B256, U256};

verus! {

/// An account snapshot as a state provider reports it.
#[derive(Clone, Copy, PartialEq, Eq, Structural, Debug)]
pub struct Account {
    pub nonce: u64,
    pub balance: U256,
    /// Hash of the account's code; `None` for an account without code.
    pub bytecode_hash: Option<B256>,
}

/// Contract code.
#[derive(PartialEq, Eq, Debug)]
pub struct Bytecode {
    pub code: Vec<u8>,
}

impl Clone for Bytecode {
    /// Clones the code bytes.
    fn clone(&self) -> (r: Self)
        ensures
            r.code@ == self.code@,
    {
        let mut code: Vec<u8> = Vec::new();
        let mut i: usize = 0;
        while i < self.code.len()
            invariant
                i <= self.code@.len(),
                code@ == self.code@.subrange(0, i as int),
            decreases self.code@.len() - i,
        {
            code.push(self.code[i]);
            proof {
                assert(code@ =~= self.code@.subrange(0, i as int + 1));
            }
            i = i + 1;
        }
        proof {
            assert(code@ =~= self.code@);
        }
        Bytecode { code }
    }
}

/// Whether two optional bytecodes hold the same code bytes.
pub open spec fn bytecode_eq(a: Option<Bytecode>, b: Option<Bytecode>) -> bool {
    match (a, b) {
        (Some(x), Some(y)) => x.code@ == y.code@,
        (None, None) => true,
        _ => false,
    }
}

/// Failure of a state read: propagated verbatim, never replaced by a
/// synthesized value.
#[derive(Clone, Copy, PartialEq, Eq, Structural, Debug)]
pub enum ProviderError {
    /// The underlying store failed.
    Database,
    /// A state root over a non-empty overlay is a collaborator
    /// responsibility.
    StateRootUnsupported,
    /// A proof over a non-empty overlay is a collaborator
    /// responsibility.
    ProofUnsupported,
    /// The block to build on was not found.
    HeaderNotFound,
}

/// The result type of every state read.
pub type ProviderResult<T> = Result<T, ProviderError>;

/// An account proof as the proof pathway reports it.
#[derive(Clone, PartialEq, Eq, Debug)]
pub struct AccountProof {
    pub address: Address,
    pub proof: Vec<Vec<u8>>,
}

/// Bookkeeping a state-root computation may hand back for committing.
#[derive(Clone, PartialEq, Eq, Debug)]
pub struct TrieUpdates {
    pub nodes: Vec<(B256, Vec<u8>)>,
}

/// One account's change in a state diff: its new snapshot (`None` means
/// destroyed) and changed storage slots.
#[derive(Clone, PartialEq, Eq, Debug)]
pub struct AccountChange {
    pub address: Address,
    pub info: Option<Account>,
    pub storage: Vec<(B256, B256)>,
}

/// The state diff one execution produced, keyed by account.
#[derive(Clone, PartialEq, Eq, Debug)]
pub struct StateDiff {
    pub entries: Vec<AccountChange>,
}

/// One entry of the state ledger: a full execution diff, or the
/// post-block withdrawal balance increments.
#[derive(Clone, PartialEq, Eq, Debug)]
pub enum StateCommit {
    Diff(StateDiff),
    BalanceIncrements(Vec<(Address, u128)>),
}

/// The state changes accumulated over a build, in commit order.
#[derive(Clone, PartialEq, Eq, Debug)]
pub struct BundleState {
    pub commits: Vec<StateCommit>,
}

/// A read-only view of historical chain state, consistent for one block
/// hash. Each read either reports the provider's value for its key or
/// propagates the provider's own error; on `Ok` the result is exactly
/// the provider's abstract state.
pub trait StateReader {
    /// The provider's abstract account table.
    spec fn spec_account(&self, address: Address) -> Option<Account>;

    /// The provider's abstract storage table.
    spec fn spec_storage(&self, address: Address, key: B256) -> Option<B256>;

    /// The provider's abstract code table.
    spec fn spec_bytecode(&self, code_hash: B256) -> Option<Bytecode>;

    /// The provider's abstract block-hash table.
    spec fn spec_block_hash(&self, number: u64) -> Option<B256>;

    /// The provider's canonical hashes for the half-open block range
    /// `[start, end)`.
    spec fn spec_canonical_hashes(&self, start: u64, end: u64) -> Seq<B256>;

    /// The state root of a bundle applied on top of this state.
    spec fn spec_state_root(&self, bundle: BundleState) -> B256;

    /// Read an account snapshot.
    fn basic_account(&self, address: Address) -> (r: ProviderResult<Option<Account>>)
        ensures
            r matches Ok(v) ==> v == self.spec_account(address),
    ;

    /// Read one storage slot.
    fn storage(&self, address: Address, storage_key: B256) -> (r: ProviderResult<Option<B256>>)
        ensures
            r matches Ok(v) ==> v == self.spec_storage(address, storage_key),
    ;

    /// Read contract code by its hash.
    fn bytecode_by_hash(&self, code_hash: B256) -> (r: ProviderResult<Option<Bytecode>>)
        ensures
            r matches Ok(v) ==> bytecode_eq(v, self.spec_bytecode(code_hash)),
    ;

    /// Read the canonical hash of a block number.
    fn block_hash(&self, number: u64) -> (r: ProviderResult<Option<B256>>)
        ensures
            r matches Ok(v) ==> v == self.spec_block_hash(number),
    ;

    /// Read the canonical hashes of the half-open range `[start, end)`.
    fn canonical_hashes_range(&self, start: u64, end: u64) -> (r: ProviderResult<Vec<B256>>)
        ensures
            r matches Ok(v) ==> v@ == self.spec_canonical_hashes(start, end),
    ;

    /// Compute the state root of `bundle` on top of this state.
    fn state_root(&self, bundle: &BundleState) -> (r: ProviderResult<B256>)
        ensures
            r matches Ok(v) ==> v == self.spec_state_root(*bundle),
    ;

    /// Compute the state root together with the trie updates to commit.
    fn state_root_with_updates(&self, bundle: &BundleState) -> (r: ProviderResult<
        (B256, TrieUpdates),
    >)
        ensures
            r matches Ok(v) ==> v.0 == self.spec_state_root(*bundle),
    ;

    /// Compute an account proof; its contents are the trie
    /// collaborator's responsibility.
    fn account_proof(&self, address: Address, slots: &Vec<B256>) -> (r: ProviderResult<
        AccountProof,
    >)
        ensures
            r matches Ok(v) ==> v.address == address,
    ;
}

/// First value under `a` in an association list.
pub open spec fn assoc_account(entries: Seq<(Address, Account)>, a: Address) -> Option<Account>
    decreases entries.len(),
{
    if entries.len() == 0 {
        None
    } else if entries[0].0 == a {
        Some(entries[0].1)
    } else {
        assoc_account(entries.drop_first(), a)
    }
}

/// An in-memory state provider backed by plain tables; the reference
/// implementation of [`StateReader`].
#[derive(Clone, PartialEq, Eq, Debug)]
pub struct MockStateReader {
    pub accounts: Vec<(Address, Account)>,
    pub storage_slots: Vec<(Address, B256, B256)>,
    pub bytecodes: Vec<(B256, Bytecode)>,
    pub block_hashes: Vec<(u64, B256)>,
}

impl MockStateReader {
    /// A provider with no state at all.
    pub fn empty() -> (r: MockStateReader)
        ensures
            r.accounts@.len() == 0,
            r.storage_slots@.len() == 0,
            r.bytecodes@.len() == 0,
            r.block_hashes@.len() == 0,
    {
        MockStateReader {
            accounts: Vec::new(),
            storage_slots: Vec::new(),
            bytecodes: Vec::new(),
            block_hashes: Vec::new(),
        }
    }
}

pub open spec fn spec_slot_lookup(
    entries: Seq<(Address, B256, B256)>,
    a: Address,
    k: B256,
) -> Option<B256>
    decreases entries.len(),
{
    if entries.len() == 0 {
        None
    } else if entries[0].0 == a && entries[0].1 == k {
        Some(entries[0].2)
    } else {
        spec_slot_lookup(entries.drop_first(), a, k)
    }
}

pub open spec fn spec_code_lookup(entries: Seq<(B256, Bytecode)>, h: B256) -> Option<Bytecode>
    decreases entries.len(),
{
    if entries.len() == 0 {
        None
    } else if entries[0].0 == h {
        Some(entries[0].1)
    } else {
        spec_code_lookup(entries.drop_first(), h)
    }
}

pub open spec fn spec_hash_lookup(entries: Seq<(u64, B256)>, n: u64) -> Option<B256>
    decreases entries.len(),
{
    if entries.len() == 0 {
        None
    } else if entries[0].0 == n {
        Some(entries[0].1)
    } else {
        spec_hash_lookup(entries.drop_first(), n)
    }
}

/// The mock's canonical hashes of `[start, end)`: the present ones, in
/// ascending block-number order.
pub open spec fn spec_hash_range(entries: Seq<(u64, B256)>, start: int, end: int) -> Seq<B256>
    decreases end - start,
{
    if start >= end {
        Seq::empty()
    } else {
        match spec_hash_lookup(entries, start as u64) {
            Some(h) => seq![h] + spec_hash_range(entries, start + 1, end),
            None => spec_hash_range(entries, start + 1, end),
        }
    }
}

impl StateReader for MockStateReader {
    closed spec fn spec_account(&self, address: Address) -> Option<Account> {
        assoc_account(self.accounts@, address)
    }

    closed spec fn spec_storage(&self, address: Address, key: B256) -> Option<B256> {
        spec_slot_lookup(self.storage_slots@, address, key)
    }

    closed spec fn spec_bytecode(&self, code_hash: B256) -> Option<Bytecode> {
        spec_code_lookup(self.bytecodes@, code_hash)
    }

    closed spec fn spec_block_hash(&self, number: u64) -> Option<B256> {
        spec_hash_lookup(self.block_hashes@, number)
    }

    closed spec fn spec_canonical_hashes(&self, start: u64, end: u64) -> Seq<B256> {
        spec_hash_range(self.block_hashes@, start as int, end as int)
    }

    closed spec fn spec_state_root(&self, bundle: BundleState) -> B256 {
        B256::zero_spec()
    }

    fn basic_account(&self, address: Address) -> (r: ProviderResult<Option<Account>>) {
        let mut i: usize = 0;
        proof {
            assert(self.accounts@.skip(0) =~= self.accounts@);
        }
        while i < self.accounts.len()
            invariant
                i <= self.accounts@.len(),
                assoc_account(self.accounts@, address) == assoc_account(
                    self.accounts@.skip(i as int),
                    address,
                ),
            decreases self.accounts@.len() - i,
        {
            proof {
                assert(self.accounts@.skip(i as int).drop_first() =~= self.accounts@.skip(
                    i as int + 1,
                ));
                assert(self.accounts@.skip(i as int)[0] == self.accounts@[i as int]);
            }
            if self.accounts[i].0 == address {
                return Ok(Some(self.accounts[i].1));
            }
            i = i + 1;
        }
        proof {
            assert(self.accounts@.skip(i as int) =~= Seq::<(Address, Account)>::empty());
        }
        Ok(None)
    }

    fn storage(&self, address: Address, storage_key: B256) -> (r: ProviderResult<Option<B256>>) {
        let mut i: usize = 0;
        proof {
            assert(self.storage_slots@.skip(0) =~= self.storage_slots@);
        }
        while i < self.storage_slots.len()
            invariant
                i <= self.storage_slots@.len(),
                spec_slot_lookup(self.storage_slots@, address, storage_key) == spec_slot_lookup(
                    self.storage_slots@.skip(i as int),
                    address,
                    storage_key,
                ),
            decreases self.storage_slots@.len() - i,
        {
            proof {
                assert(self.storage_slots@.skip(i as int).drop_first() =~= self.storage_slots@.skip(
                    i as int + 1,
                ));
                assert(self.storage_slots@.skip(i as int)[0] == self.storage_slots@[i as int]);
            }
            if self.storage_slots[i].0 == address && self.storage_slots[i].1 == storage_key {
                return Ok(Some(self.storage_slots[i].2));
            }
            i = i + 1;
        }
        proof {
            assert(self.storage_slots@.skip(i as int) =~= Seq::<(Address, B256, B256)>::empty());
        }
        Ok(None)
    }

    fn bytecode_by_hash(&self, code_hash: B256) -> (r: ProviderResult<Option<Bytecode>>) {
        let mut i: usize = 0;
        proof {
            assert(self.bytecodes@.skip(0) =~= self.bytecodes@);
        }
        while i < self.bytecodes.len()
            invariant
                i <= self.bytecodes@.len(),
                spec_code_lookup(self.bytecodes@, code_hash) == spec_code_lookup(
                    self.bytecodes@.skip(i as int),
                    code_hash,
                ),
            decreases self.bytecodes@.len() - i,
        {
            proof {
                assert(self.bytecodes@.skip(i as int).drop_first() =~= self.bytecodes@.skip(
                    i as int + 1,
                ));
                assert(self.bytecodes@.skip(i as int)[0] == self.bytecodes@[i as int]);
            }
            if self.bytecodes[i].0 == code_hash {
                return Ok(Some(self.bytecodes[i].1.clone()));
            }
            i = i + 1;
        }
        proof {
            assert(self.bytecodes@.skip(i as int) =~= Seq::<(B256, Bytecode)>::empty());
        }
        Ok(None)
    }

    fn block_hash(&self, number: u64) -> (r: ProviderResult<Option<B256>>) {
        let mut i: usize = 0;
        proof {
            assert(self.block_hashes@.skip(0) =~= self.block_hashes@);
        }
        while i < self.block_hashes.len()
            invariant
                i <= self.block_hashes@.len(),
                spec_hash_lookup(self.block_hashes@, number) == spec_hash_lookup(
                    self.block_hashes@.skip(i as int),
                    number,
                ),
            decreases self.block_hashes@.len() - i,
        {
            proof {
                assert(self.block_hashes@.skip(i as int).drop_first() =~= self.block_hashes@.skip(
                    i as int + 1,
                ));
                assert(self.block_hashes@.skip(i as int)[0] == self.block_hashes@[i as int]);
            }
            if self.block_hashes[i].0 == number {
                return Ok(Some(self.block_hashes[i].1));
            }
            i = i + 1;
        }
        proof {
            assert(self.block_hashes@.skip(i as int) =~= Seq::<(u64, B256)>::empty());
        }
        Ok(None)
    }

    fn canonical_hashes_range(&self, start: u64, end: u64) -> (r: ProviderResult<Vec<B256>>) {
        let mut out: Vec<B256> = Vec::new();
        let mut n: u64 = start;
        if end < start {
            proof {
                assert(spec_hash_range(self.block_hashes@, start as int, end as int)
                    =~= Seq::<B256>::empty());
            }
            return Ok(out);
        }
        while n < end
            invariant
                start <= n <= end,
                spec_hash_range(self.block_hashes@, start as int, end as int) =~= out@
                    + spec_hash_range(self.block_hashes@, n as int, end as int),
            decreases end - n,
        {
            let h = match self.block_hash(n) {
                Ok(v) => v,
                Err(e) => {
                    return Err(e);
                },
            };
            proof {
                assert(spec_hash_range(self.block_hashes@, n as int, end as int)
                    == match spec_hash_lookup(self.block_hashes@, n) {
                    Some(h0) => seq![h0] + spec_hash_range(self.block_hashes@, n as int + 1, end as int),
                    None => spec_hash_range(self.block_hashes@, n as int + 1, end as int),
                });
            }
            match h {
                Some(hash) => {
                    out.push(hash);
                    proof {
                        assert(spec_hash_range(self.block_hashes@, start as int, end as int)
                            =~= out@ + spec_hash_range(
                            self.block_hashes@,
                            n as int + 1,
                            end as int,
                        ));
                    }
                },
                None => {},
            }
            n = n + 1;
        }
        proof {
            assert(spec_hash_range(self.block_hashes@, n as int, end as int)
                =~= Seq::<B256>::empty());
            assert(out@ + Seq::<B256>::empty() =~= out@);
        }
        Ok(out)
    }

    fn state_root(&self, bundle: &BundleState) -> (r: ProviderResult<B256>) {
        Ok(B256::zero())
    }

    fn state_root_with_updates(&self, bundle: &BundleState) -> (r: ProviderResult<
        (B256, TrieUpdates),
    >) {
        Ok((B256::zero(), TrieUpdates { nodes: Vec::new() }))
    }

    fn account_proof(&self, address: Address, slots: &Vec<B256>) -> (r: ProviderResult<AccountProof>) {
        Ok(AccountProof { address, proof: Vec::new() })
    }
}

} // verus!
