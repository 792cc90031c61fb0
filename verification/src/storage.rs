use vstd::prelude::*;
use crate::address::Address;
use crate::uint256::{Uint256, p256};
use crate::crypto::{keccak256, keccak256_of};

verus! {

/// Failure modes of account and balance operations.
#[derive(Debug, Clone)]
pub enum StorageError {
    AccountNotFound { address: Address },
    InsufficientBalance { required: Uint256, available: Uint256 },
    InvalidNonce { expected: Uint256, got: Uint256 },
}

/// Whether a key occurs in a slot list.
pub open spec fn slots_have_key(s: Seq<(Uint256, Uint256)>, k: nat) -> bool {
    exists|i: int| 0 <= i < s.len() && s[i].0.as_nat() == k
}

/// The index of a key in a slot list; meaningful only when the key occurs.
pub open spec fn slot_index(s: Seq<(Uint256, Uint256)>, k: nat) -> int {
    choose|i: int| 0 <= i < s.len() && s[i].0.as_nat() == k
}

/// The mapping a slot list denotes.
pub open spec fn slots_map(s: Seq<(Uint256, Uint256)>) -> Map<nat, nat> {
    Map::new(|k: nat| slots_have_key(s, k), |k: nat| s[slot_index(s, k)].1.as_nat())
}

/// A canonical slot list: keys occur once and no value is zero, so that an
/// absent key and a zero value are the same thing.
pub open spec fn slots_wf(s: Seq<(Uint256, Uint256)>) -> bool {
    &&& forall|i: int, j: int|
        0 <= i < j < s.len() ==> s[i].0.as_nat() != s[j].0.as_nat()
    &&& forall|i: int| 0 <= i < s.len() ==> s[i].1.as_nat() != 0
}

/// In a canonical slot list, each entry is the mapping of its key.
proof fn lemma_slots_map_at(s: Seq<(Uint256, Uint256)>, i: int)
    requires
        slots_wf(s),
        0 <= i < s.len(),
    ensures
        slots_map(s).contains_key(s[i].0.as_nat()),
        slots_map(s)[s[i].0.as_nat()] == s[i].1.as_nat(),
{
    let k = s[i].0.as_nat();
    assert(slots_have_key(s, k));
    let j = slot_index(s, k);
    assert(0 <= j < s.len() && s[j].0.as_nat() == k);
    assert(j == i);
}

/// One account: balance, nonce, code, storage slots, and a deletion mark.
#[derive(Debug, Clone, PartialEq)]
pub struct Account {
    pub balance: Uint256,
    pub nonce: Uint256,
    pub code: Vec<u8>,
    pub storage: Vec<(Uint256, Uint256)>,
    pub deleted: bool,
}

impl Account {
    /// The key-value mapping this account's storage denotes.
    pub open spec fn storage_map(&self) -> Map<nat, nat> {
        slots_map(self.storage@)
    }

    /// The slot list is canonical.
    pub open spec fn well_formed(&self) -> bool {
        slots_wf(self.storage@)
    }

    /// A fresh account: everything zero or empty.
    pub open spec fn is_fresh(&self) -> bool {
        &&& self.balance.as_nat() == 0
        &&& self.nonce.as_nat() == 0
        &&& self.code@.len() == 0
        &&& self.storage@.len() == 0
        &&& !self.deleted
    }

    /// Create an account with zero balance and nonce and no code.
    pub fn new() -> (r: Account)
        ensures
            r.is_fresh(),
            r.well_formed(),
    {
        Account {
            balance: Uint256::zero(),
            nonce: Uint256::zero(),
            code: Vec::new(),
            storage: Vec::new(),
            deleted: false,
        }
    }

    /// Create a contract account holding the given code.
    pub fn new_contract(code: Vec<u8>) -> (r: Account)
        ensures
            r.balance.as_nat() == 0,
            r.nonce.as_nat() == 0,
            r.code == code,
            r.storage@.len() == 0,
            !r.deleted,
            r.well_formed(),
    {
        Account {
            balance: Uint256::zero(),
            nonce: Uint256::zero(),
            code,
            storage: Vec::new(),
            deleted: false,
        }
    }

    /// Whether this account carries code.
    pub fn is_contract(&self) -> (r: bool)
        ensures
            r == (self.code@.len() != 0),
    {
        self.code.len() != 0
    }

    /// The Keccak-256 hash of the account's code; empty code hashes to the
    /// all-zero hash.
    pub fn code_hash(&self) -> (r: crate::hash::Hash)
        ensures
            self.code@.len() == 0 ==> forall|i: int| 0 <= i < 32 ==> r@[i] == 0,
            self.code@.len() != 0 ==> r@ == keccak256_of(self.code@),
    {
        if self.code.len() == 0 {
            crate::hash::Hash::zero()
        } else {
            let digest = keccak256(self.code.as_slice());
            crate::hash::Hash::from_vec(&digest)
        }
    }

    /// Find the position of a key in the slot list.
    fn position_of(&self, key: &Uint256) -> (r: Option<usize>)
        ensures
            match r {
                Some(i) => i < self.storage@.len() && self.storage@[i as int].0.as_nat()
                    == key.as_nat(),
                None => forall|j: int|
                    0 <= j < self.storage@.len() ==> self.storage@[j].0.as_nat() != key.as_nat(),
            },
    {
        let n = self.storage.len();
        let mut i: usize = 0;
        while i < n
            invariant
                i <= n,
                n == self.storage@.len(),
                forall|j: int|
                    0 <= j < i ==> self.storage@[j].0.as_nat() != key.as_nat(),
            decreases n - i,
        {
            proof {
                Uint256::lemma_as_nat_injective(self.storage@[i as int].0, *key);
            }
            if &self.storage[i].0 == key {
                return Some(i);
            }
            i += 1;
        }
        None
    }

    /// Read a storage slot; absent keys read as zero.
    pub fn get_storage(&self, key: &Uint256) -> (r: Uint256)
        requires
            self.well_formed(),
        ensures
            r.as_nat() == if self.storage_map().contains_key(key.as_nat()) {
                self.storage_map()[key.as_nat()]
            } else {
                0nat
            },
    {
        match self.position_of(key) {
            Some(i) => {
                proof {
                    lemma_slots_map_at(self.storage@, i as int);
                }
                self.storage[i].1
            },
            None => {
                proof {
                    assert(!slots_have_key(self.storage@, key.as_nat()));
                }
                Uint256::zero()
            },
        }
    }

    /// Write a storage slot: a zero value removes the key, so an absent key
    /// and a zero value stay the same thing.
    pub fn set_storage(&mut self, key: Uint256, value: Uint256)
        requires
            old(self).well_formed(),
        ensures
            final(self).well_formed(),
            final(self).storage_map() == if value.as_nat() == 0 {
                old(self).storage_map().remove(key.as_nat())
            } else {
                old(self).storage_map().insert(key.as_nat(), value.as_nat())
            },
            final(self).balance == old(self).balance,
            final(self).nonce == old(self).nonce,
            final(self).code == old(self).code,
            final(self).deleted == old(self).deleted,
    {
        let ghost s0 = self.storage@;
        let pos = self.position_of(&key);
        if value.is_zero() {
            match pos {
                Some(i) => {
                    self.storage.remove(i);
                    proof {
                        lemma_slots_remove(s0, i as int, key.as_nat());
                    }
                },
                None => {
                    proof {
                        assert(!slots_have_key(s0, key.as_nat()));
                        assert(slots_map(s0).remove(key.as_nat()) =~= slots_map(s0));
                    }
                },
            }
        } else {
            match pos {
                Some(i) => {
                    self.storage[i] = (key, value);
                    proof {
                        lemma_slots_update(s0, i as int, key, value);
                    }
                },
                None => {
                    self.storage.push((key, value));
                    proof {
                        lemma_slots_push(s0, key, value);
                    }
                },
            }
        }
    }

    /// Add to the balance, wrapping modulo 2^256.
    pub fn add_balance(&mut self, amount: Uint256)
        ensures
            final(self).balance.as_nat() == (old(self).balance.as_nat() + amount.as_nat())
                % p256(),
            final(self).nonce == old(self).nonce,
            final(self).code == old(self).code,
            final(self).storage == old(self).storage,
            final(self).deleted == old(self).deleted,
    {
        self.balance = self.balance.add(&amount);
    }

    /// Subtract from the balance; fails without change when the amount
    /// exceeds the balance.
    pub fn sub_balance(&mut self, amount: Uint256) -> (r: Result<(), StorageError>)
        ensures
            final(self).nonce == old(self).nonce,
            final(self).code == old(self).code,
            final(self).storage == old(self).storage,
            final(self).deleted == old(self).deleted,
            match r {
                Ok(()) => amount.as_nat() <= old(self).balance.as_nat()
                    && final(self).balance.as_nat() == old(self).balance.as_nat()
                    - amount.as_nat(),
                Err(e) => (e matches StorageError::InsufficientBalance { required, available }
                    && required == amount && available == old(self).balance) && amount.as_nat()
                    > old(self).balance.as_nat() && final(self).balance == old(self).balance,
            },
    {
        if self.balance.lt(&amount) {
            return Err(
                StorageError::InsufficientBalance { required: amount, available: self.balance },
            );
        }
        let ghost b0 = self.balance.as_nat();
        self.balance = self.balance.sub(&amount);
        proof {
            vstd::arithmetic::div_mod::lemma_small_mod(
                (b0 - amount.as_nat()) as nat,
                p256(),
            );
        }
        Ok(())
    }

    /// Advance the nonce by one, wrapping modulo 2^256.
    pub fn increment_nonce(&mut self)
        ensures
            final(self).nonce.as_nat() == (old(self).nonce.as_nat() + 1) % p256(),
            final(self).balance == old(self).balance,
            final(self).code == old(self).code,
            final(self).storage == old(self).storage,
            final(self).deleted == old(self).deleted,
    {
        let one = Uint256::one();
        self.nonce = self.nonce.add(&one);
    }

    /// Mark the account deleted and clear everything it holds.
    pub fn delete(&mut self)
        ensures
            final(self).deleted,
            final(self).balance.as_nat() == 0,
            final(self).nonce.as_nat() == 0,
            final(self).code@.len() == 0,
            final(self).storage@.len() == 0,
            final(self).well_formed(),
    {
        self.deleted = true;
        self.balance = Uint256::zero();
        self.nonce = Uint256::zero();
        self.code.clear();
        self.storage.clear();
    }
}

/// Removing the entry of a key removes exactly that key from the mapping.
proof fn lemma_slots_remove(s: Seq<(Uint256, Uint256)>, i: int, k: nat)
    requires
        slots_wf(s),
        0 <= i < s.len(),
        s[i].0.as_nat() == k,
    ensures
        slots_wf(s.remove(i)),
        slots_map(s.remove(i)) == slots_map(s).remove(k),
{
    let t = s.remove(i);
    assert forall|k2: nat| slots_have_key(t, k2) implies slots_map(t)[k2] == slots_map(
        s,
    ).remove(k)[k2] && slots_map(s).remove(k).contains_key(k2) by {
        let j = slot_index(t, k2);
        let j0 = if j < i {
            j
        } else {
            j + 1
        };
        assert(t[j] == s[j0]);
        assert(slots_have_key(s, k2));
        lemma_slots_map_at(s, j0);
        lemma_slots_map_at_general(t, j);
        assert(k2 != k);
    }
    assert forall|k2: nat| slots_map(s).remove(k).contains_key(k2) implies slots_have_key(
        t,
        k2,
    ) by {
        let j0 = slot_index(s, k2);
        assert(0 <= j0 < s.len() && s[j0].0.as_nat() == k2);
        assert(j0 != i);
        let j = if j0 < i {
            j0
        } else {
            j0 - 1
        };
        assert(t[j] == s[j0]);
    }
    assert(slots_map(t) =~= slots_map(s).remove(k));
}

/// Entries of a canonical list index the mapping even without the full
/// uniqueness hypothesis on the witness choice.
proof fn lemma_slots_map_at_general(s: Seq<(Uint256, Uint256)>, i: int)
    requires
        forall|a: int, b: int| 0 <= a < b < s.len() ==> s[a].0.as_nat() != s[b].0.as_nat(),
        0 <= i < s.len(),
    ensures
        slots_map(s).contains_key(s[i].0.as_nat()),
        slots_map(s)[s[i].0.as_nat()] == s[i].1.as_nat(),
{
    let k = s[i].0.as_nat();
    assert(slots_have_key(s, k));
    let j = slot_index(s, k);
    assert(0 <= j < s.len() && s[j].0.as_nat() == k);
    assert(j == i);
}

/// Overwriting the entry of a key updates exactly that key in the mapping.
proof fn lemma_slots_update(s: Seq<(Uint256, Uint256)>, i: int, key: Uint256, value: Uint256)
    requires
        slots_wf(s),
        0 <= i < s.len(),
        s[i].0.as_nat() == key.as_nat(),
        value.as_nat() != 0,
    ensures
        slots_wf(s.update(i, (key, value))),
        slots_map(s.update(i, (key, value))) == slots_map(s).insert(key.as_nat(), value.as_nat()),
{
    let t = s.update(i, (key, value));
    let k = key.as_nat();
    assert forall|k2: nat| slots_have_key(t, k2) implies slots_have_key(s, k2) by {
        let j = slot_index(t, k2);
        if j == i {
        } else {
            assert(t[j] == s[j]);
        }
    }
    assert forall|k2: nat| slots_have_key(s, k2) implies slots_have_key(t, k2) by {
        let j = slot_index(s, k2);
        if j == i {
            assert(t[i].0.as_nat() == k);
        } else {
            assert(t[j] == s[j]);
        }
    }
    assert forall|k2: nat| slots_have_key(t, k2) implies slots_map(t)[k2] == slots_map(s).insert(
        k,
        value.as_nat(),
    )[k2] by {
        let j = slot_index(t, k2);
        lemma_slots_map_at_general(t, j);
        if k2 == k {
            assert(j == i);
        } else {
            assert(j != i);
            assert(t[j] == s[j]);
            lemma_slots_map_at(s, j);
        }
    }
    assert(slots_map(t) =~= slots_map(s).insert(k, value.as_nat()));
}

/// Appending a new key adds exactly that key to the mapping.
proof fn lemma_slots_push(s: Seq<(Uint256, Uint256)>, key: Uint256, value: Uint256)
    requires
        slots_wf(s),
        forall|j: int| 0 <= j < s.len() ==> s[j].0.as_nat() != key.as_nat(),
        value.as_nat() != 0,
    ensures
        slots_wf(s.push((key, value))),
        slots_map(s.push((key, value))) == slots_map(s).insert(key.as_nat(), value.as_nat()),
{
    let t = s.push((key, value));
    let k = key.as_nat();
    assert(t[s.len() as int].0.as_nat() == k);
    assert forall|k2: nat| slots_have_key(t, k2) implies slots_map(t)[k2] == slots_map(s).insert(
        k,
        value.as_nat(),
    )[k2] && (k2 == k || slots_have_key(s, k2)) by {
        let j = slot_index(t, k2);
        lemma_slots_map_at_general(t, j);
        if j == s.len() {
            assert(k2 == k);
        } else {
            assert(t[j] == s[j]);
            assert(k2 != k);
            lemma_slots_map_at(s, j);
        }
    }
    assert forall|k2: nat| slots_have_key(s, k2) implies slots_have_key(t, k2) by {
        let j = slot_index(s, k2);
        assert(t[j] == s[j]);
    }
    assert(slots_map(t) =~= slots_map(s).insert(k, value.as_nat()));
}

/// Law: writing a key and then clearing it leaves the mapping without the
/// key, whatever it held before, so reading it afterwards gives zero. This
/// states, over the mapping that set_storage's contract speaks of, that a
/// set of a non-zero value followed by a set of zero removes the key.
pub proof fn lemma_set_then_clear(m: Map<nat, nat>, k: nat, v: nat)
    requires
        v != 0,
    ensures
        !m.insert(k, v).remove(k).contains_key(k),
{
}

/// The zero word, written out as a value.
pub open spec fn u256_zero() -> Uint256 {
    Uint256 { limb0: 0, limb1: 0, limb2: 0, limb3: 0 }
}

/// Whether an address occurs in an account list.
pub open spec fn world_has_key(s: Seq<(Address, Account)>, a: Seq<u8>) -> bool {
    exists|i: int| 0 <= i < s.len() && s[i].0@ == a
}

/// The index of an address in an account list; meaningful only when present.
pub open spec fn world_index(s: Seq<(Address, Account)>, a: Seq<u8>) -> int {
    choose|i: int| 0 <= i < s.len() && s[i].0@ == a
}

/// The mapping from address bytes to accounts that an account list denotes.
pub open spec fn world_map(s: Seq<(Address, Account)>) -> Map<Seq<u8>, Account> {
    Map::new(|a: Seq<u8>| world_has_key(s, a), |a: Seq<u8>| s[world_index(s, a)].1)
}

/// A canonical account list: addresses occur once, accounts are canonical.
pub open spec fn world_wf(s: Seq<(Address, Account)>) -> bool {
    &&& forall|i: int, j: int| 0 <= i < j < s.len() ==> s[i].0@ != s[j].0@
    &&& forall|i: int| 0 <= i < s.len() ==> (#[trigger] s[i].1).well_formed()
}

/// Each entry of a canonical account list indexes the mapping.
proof fn lemma_world_map_at(s: Seq<(Address, Account)>, i: int)
    requires
        forall|a: int, b: int| 0 <= a < b < s.len() ==> s[a].0@ != s[b].0@,
        0 <= i < s.len(),
    ensures
        world_map(s).contains_key(s[i].0@),
        world_map(s)[s[i].0@] == s[i].1,
{
    let a = s[i].0@;
    assert(world_has_key(s, a));
    let j = world_index(s, a);
    assert(0 <= j < s.len() && s[j].0@ == a);
    assert(j == i);
}

/// Removing an entry removes exactly its address from the mapping.
proof fn lemma_world_remove(s: Seq<(Address, Account)>, i: int, a: Seq<u8>)
    requires
        world_wf(s),
        0 <= i < s.len(),
        s[i].0@ == a,
    ensures
        world_wf(s.remove(i)),
        world_map(s.remove(i)) == world_map(s).remove(a),
{
    let t = s.remove(i);
    assert forall|a2: Seq<u8>| world_has_key(t, a2) implies world_map(t)[a2] == world_map(
        s,
    ).remove(a)[a2] && world_map(s).remove(a).contains_key(a2) by {
        let j = world_index(t, a2);
        let j0 = if j < i {
            j
        } else {
            j + 1
        };
        assert(t[j] == s[j0]);
        assert(world_has_key(s, a2));
        lemma_world_map_at(s, j0);
        lemma_world_map_at(t, j);
        assert(a2 != a);
    }
    assert forall|a2: Seq<u8>| world_map(s).remove(a).contains_key(a2) implies world_has_key(
        t,
        a2,
    ) by {
        let j0 = world_index(s, a2);
        assert(0 <= j0 < s.len() && s[j0].0@ == a2);
        assert(j0 != i);
        let j = if j0 < i {
            j0
        } else {
            j0 - 1
        };
        assert(t[j] == s[j0]);
    }
    assert(world_map(t) =~= world_map(s).remove(a));
}

/// Appending a new address adds exactly that address to the mapping.
proof fn lemma_world_push(s: Seq<(Address, Account)>, addr: Address, acc: Account)
    requires
        world_wf(s),
        forall|j: int| 0 <= j < s.len() ==> s[j].0@ != addr@,
        acc.well_formed(),
    ensures
        world_wf(s.push((addr, acc))),
        world_map(s.push((addr, acc))) == world_map(s).insert(addr@, acc),
{
    let t = s.push((addr, acc));
    let a = addr@;
    assert(t[s.len() as int].0@ == a);
    assert forall|a2: Seq<u8>| world_has_key(t, a2) implies world_map(t)[a2] == world_map(
        s,
    ).insert(a, acc)[a2] && (a2 == a || world_has_key(s, a2)) by {
        let j = world_index(t, a2);
        lemma_world_map_at(t, j);
        if j == s.len() {
            assert(a2 == a);
        } else {
            assert(t[j] == s[j]);
            assert(a2 != a);
            lemma_world_map_at(s, j);
        }
    }
    assert forall|a2: Seq<u8>| world_has_key(s, a2) implies world_has_key(t, a2) by {
        let j = world_index(s, a2);
        assert(t[j] == s[j]);
    }
    assert(world_map(t) =~= world_map(s).insert(a, acc));
}

/// The world evolved only at one address: the domain gained at most that
/// address and every other account is untouched.
pub open spec fn updated_at(
    w0: Map<Seq<u8>, Account>,
    w1: Map<Seq<u8>, Account>,
    a: Seq<u8>,
) -> bool {
    &&& w1.dom() == w0.dom().insert(a)
    &&& w1.contains_key(a)
    &&& forall|b: Seq<u8>| #![auto] w0.contains_key(b) && b != a ==> w1[b] == w0[b]
}

/// The account before a write: the stored one, or a fresh account when the
/// address was absent.
pub open spec fn prior_nonce(w0: Map<Seq<u8>, Account>, a: Seq<u8>) -> Uint256 {
    if w0.contains_key(a) {
        w0[a].nonce
    } else {
        u256_zero()
    }
}

/// The balance before a write, zero for an absent address.
pub open spec fn prior_balance(w0: Map<Seq<u8>, Account>, a: Seq<u8>) -> Uint256 {
    if w0.contains_key(a) {
        w0[a].balance
    } else {
        u256_zero()
    }
}

/// The code bytes before a write, empty for an absent address.
pub open spec fn prior_code(w0: Map<Seq<u8>, Account>, a: Seq<u8>) -> Seq<u8> {
    if w0.contains_key(a) {
        w0[a].code@
    } else {
        Seq::empty()
    }
}

/// The storage mapping before a write, empty for an absent address.
pub open spec fn prior_slots(w0: Map<Seq<u8>, Account>, a: Seq<u8>) -> Map<nat, nat> {
    if w0.contains_key(a) {
        w0[a].storage_map()
    } else {
        Map::empty()
    }
}

/// The deletion mark before a write, clear for an absent address.
pub open spec fn prior_deleted(w0: Map<Seq<u8>, Account>, a: Seq<u8>) -> bool {
    if w0.contains_key(a) {
        w0[a].deleted
    } else {
        false
    }
}

/// The world of accounts: a mapping from addresses to account records.
/// Reads of an absent account see zero-valued defaults; writes create the
/// account first.
pub struct Storage {
    accounts: Vec<(Address, Account)>,
}

impl Storage {
    /// The mapping this store denotes.
    pub closed spec fn world(&self) -> Map<Seq<u8>, Account> {
        world_map(self.accounts@)
    }

    /// Addresses occur once and every account is canonical.
    pub closed spec fn well_formed(&self) -> bool {
        world_wf(self.accounts@)
    }

    /// Create an empty store.
    pub fn new() -> (r: Storage)
        ensures
            r.world() == Map::<Seq<u8>, Account>::empty(),
            r.well_formed(),
    {
        let r = Storage { accounts: Vec::new() };
        proof {
            assert(r.world() =~= Map::<Seq<u8>, Account>::empty());
        }
        r
    }

    /// Find the position of an address.
    fn position_of(&self, address: &Address) -> (r: Option<usize>)
        ensures
            match r {
                Some(i) => i < self.accounts@.len() && self.accounts@[i as int].0@ == address@,
                None => forall|j: int|
                    0 <= j < self.accounts@.len() ==> self.accounts@[j].0@ != address@,
            },
    {
        let n = self.accounts.len();
        let mut i: usize = 0;
        while i < n
            invariant
                i <= n,
                n == self.accounts@.len(),
                forall|j: int| 0 <= j < i ==> self.accounts@[j].0@ != address@,
            decreases n - i,
        {
            if &self.accounts[i].0 == address {
                return Some(i);
            }
            i += 1;
        }
        None
    }

    /// Take the account at an address out of the store, or a fresh one when
    /// the address is absent.
    fn take_account(&mut self, address: &Address) -> (r: Account)
        requires
            old(self).well_formed(),
        ensures
            final(self).well_formed(),
            r.well_formed(),
            r == if old(self).world().contains_key(address@) {
                old(self).world()[address@]
            } else {
                r
            },
            !old(self).world().contains_key(address@) ==> r.is_fresh(),
            final(self).world() == old(self).world().remove(address@),
            forall|j: int|
                0 <= j < final(self).accounts@.len() ==> final(self).accounts@[j].0@ != address@,
    {
        match self.position_of(address) {
            Some(i) => {
                proof {
                    lemma_world_map_at(self.accounts@, i as int);
                    lemma_world_remove(self.accounts@, i as int, address@);
                }
                let entry = self.accounts.remove(i);
                proof {
                    assert forall|j: int|
                        0 <= j < self.accounts@.len() implies self.accounts@[j].0@
                        != address@ by {
                        let s0 = old(self).accounts@;
                        if j < i {
                            assert(self.accounts@[j] == s0[j]);
                        } else {
                            assert(self.accounts@[j] == s0[j + 1]);
                        }
                    }
                }
                entry.1
            },
            None => {
                proof {
                    assert(!world_has_key(self.accounts@, address@));
                    assert(self.world().remove(address@) =~= self.world());
                }
                Account::new()
            },
        }
    }

    /// Put an account in at an address that is not present.
    fn put_account(&mut self, address: Address, account: Account)
        requires
            old(self).well_formed(),
            account.well_formed(),
            forall|j: int|
                0 <= j < old(self).accounts@.len() ==> old(self).accounts@[j].0@ != address@,
        ensures
            final(self).well_formed(),
            final(self).world() == old(self).world().insert(address@, account),
    {
        proof {
            lemma_world_push(self.accounts@, address, account);
        }
        self.accounts.push((address, account));
    }

    /// The account list as stored; its mapping is the world.
    pub closed spec fn spec_account_count(&self) -> nat {
        self.accounts@.len() as nat
    }

    /// Create the account at an address when it is absent; an existing
    /// account is left exactly as it was.
    pub fn get_or_create_account(&mut self, address: Address)
        requires
            old(self).well_formed(),
        ensures
            final(self).well_formed(),
            updated_at(old(self).world(), final(self).world(), address@),
            final(self).world()[address@] == if old(self).world().contains_key(address@) {
                old(self).world()[address@]
            } else {
                final(self).world()[address@]
            },
            !old(self).world().contains_key(address@) ==> final(self).world()[address@].is_fresh(),
    {
        let acc = self.take_account(&address);
        self.put_account(address, acc);
        proof {
            assert(final(self).world().dom() =~= old(self).world().dom().insert(address@));
        }
    }

    /// The account stored at an address, when there is one.
    pub fn get_account(&self, address: &Address) -> (r: Option<&Account>)
        requires
            self.well_formed(),
        ensures
            match r {
                Some(acc) => self.world().contains_key(address@) && *acc
                    == self.world()[address@],
                None => !self.world().contains_key(address@),
            },
    {
        match self.position_of(address) {
            Some(i) => {
                proof {
                    lemma_world_map_at(self.accounts@, i as int);
                }
                Some(&self.accounts[i].1)
            },
            None => {
                proof {
                    assert(!world_has_key(self.accounts@, address@));
                }
                None
            },
        }
    }

    /// Whether an account is stored at an address.
    pub fn account_exists(&self, address: &Address) -> (r: bool)
        requires
            self.well_formed(),
        ensures
            r == self.world().contains_key(address@),
    {
        match self.get_account(address) {
            Some(_) => true,
            None => false,
        }
    }

    /// Mark the account at an address deleted and clear it; an absent
    /// address is left absent.
    pub fn delete_account(&mut self, address: &Address)
        requires
            old(self).well_formed(),
        ensures
            final(self).well_formed(),
            old(self).world().contains_key(address@) ==> updated_at(
                old(self).world(),
                final(self).world(),
                address@,
            ) && final(self).world()[address@].deleted && final(self).world()[address@].balance.as_nat() == 0,
            !old(self).world().contains_key(address@) ==> final(self).world() == old(self).world(),
    {
        match self.position_of(address) {
            Some(_) => {
                let mut acc = self.take_account(address);
                acc.delete();
                self.put_account(*address, acc);
                proof {
                    assert(final(self).world().dom() =~= old(self).world().dom().insert(
                        address@,
                    ));
                }
            },
            None => {
                proof {
                    assert(!world_has_key(self.accounts@, address@));
                }
            },
        }
    }

    /// The balance at an address, zero when absent.
    pub fn get_balance(&self, address: &Address) -> (r: Uint256)
        requires
            self.well_formed(),
        ensures
            r == prior_balance(self.world(), address@),
    {
        match self.get_account(address) {
            Some(acc) => acc.balance,
            None => {
                let z = Uint256::zero();
                proof {
                    Uint256::lemma_as_nat_injective(z, u256_zero());
                }
                z
            },
        }
    }

    /// Set the balance at an address, creating the account when absent.
    pub fn set_balance(&mut self, address: Address, balance: Uint256)
        requires
            old(self).well_formed(),
        ensures
            final(self).well_formed(),
            updated_at(old(self).world(), final(self).world(), address@),
            final(self).world()[address@].balance == balance,
            final(self).world()[address@].nonce == prior_nonce(old(self).world(), address@),
            final(self).world()[address@].code@ == prior_code(old(self).world(), address@),
            final(self).world()[address@].storage_map() == prior_slots(
                old(self).world(),
                address@,
            ),
            final(self).world()[address@].deleted == prior_deleted(old(self).world(), address@),
    {
        let mut acc = self.take_account(&address);
        acc.balance = balance;
        self.put_account(address, acc);
        proof {
            assert(final(self).world().dom() =~= old(self).world().dom().insert(address@));
        }
    }

    /// Add to the balance at an address, wrapping modulo 2^256 and creating
    /// the account when absent.
    pub fn add_balance(&mut self, address: Address, amount: Uint256)
        requires
            old(self).well_formed(),
        ensures
            final(self).well_formed(),
            updated_at(old(self).world(), final(self).world(), address@),
            final(self).world()[address@].balance.as_nat() == (prior_balance(
                old(self).world(),
                address@,
            ).as_nat() + amount.as_nat()) % p256(),
            final(self).world()[address@].nonce == prior_nonce(old(self).world(), address@),
            final(self).world()[address@].code@ == prior_code(old(self).world(), address@),
            final(self).world()[address@].storage_map() == prior_slots(
                old(self).world(),
                address@,
            ),
    {
        let mut acc = self.take_account(&address);
        acc.add_balance(amount);
        self.put_account(address, acc);
        proof {
            assert(final(self).world().dom() =~= old(self).world().dom().insert(address@));
        }
    }

    /// Subtract from the balance at an address; fails without change when
    /// the account is absent or holds too little.
    pub fn sub_balance(&mut self, address: &Address, amount: Uint256) -> (r: Result<
        (),
        StorageError,
    >)
        requires
            old(self).well_formed(),
        ensures
            final(self).well_formed(),
            match r {
                Ok(()) => old(self).world().contains_key(address@) && amount.as_nat() <= old(self).world()[address@].balance.as_nat() && updated_at(
                    old(self).world(),
                    final(self).world(),
                    address@,
                ) && final(self).world()[address@].balance.as_nat() == old(self).world()[address@].balance.as_nat() - amount.as_nat() && final(self).world()[address@].nonce == prior_nonce(old(self).world(), address@) && final(self).world()[address@].code@ == prior_code(old(self).world(), address@) && final(self).world()[address@].storage_map() == prior_slots(old(self).world(), address@),
                Err(e) => (e matches StorageError::InsufficientBalance { required, available }
                    && required == amount && available == prior_balance(
                    old(self).world(),
                    address@,
                )) && final(self).world() == old(self).world() && (!old(
                    self,
                ).world().contains_key(address@) || amount.as_nat() > old(
                    self,
                ).world()[address@].balance.as_nat()),
            },
    {
        match self.position_of(address) {
            Some(_) => {
                let mut acc = self.take_account(address);
                let res = acc.sub_balance(amount);
                match res {
                    Ok(()) => {
                        self.put_account(*address, acc);
                        proof {
                            assert(final(self).world().dom() =~= old(self).world().dom().insert(address@));
                        }
                        Ok(())
                    },
                    Err(e) => {
                        self.put_account(*address, acc);
                        proof {
                            assert(final(self).world() =~= old(self).world());
                        }
                        Err(e)
                    },
                }
            },
            None => {
                proof {
                    assert(!world_has_key(self.accounts@, address@));
                }
                Err(
                    StorageError::InsufficientBalance {
                        required: amount,
                        available: Uint256::zero(),
                    },
                )
            },
        }
    }

    /// The nonce at an address, zero when absent.
    pub fn get_nonce(&self, address: &Address) -> (r: Uint256)
        requires
            self.well_formed(),
        ensures
            r == prior_nonce(self.world(), address@),
    {
        match self.get_account(address) {
            Some(acc) => acc.nonce,
            None => {
                let z = Uint256::zero();
                proof {
                    Uint256::lemma_as_nat_injective(z, u256_zero());
                }
                z
            },
        }
    }

    /// Set the nonce at an address, creating the account when absent.
    pub fn set_nonce(&mut self, address: Address, nonce: Uint256)
        requires
            old(self).well_formed(),
        ensures
            final(self).well_formed(),
            updated_at(old(self).world(), final(self).world(), address@),
            final(self).world()[address@].nonce == nonce,
            final(self).world()[address@].balance == prior_balance(old(self).world(), address@),
            final(self).world()[address@].code@ == prior_code(old(self).world(), address@),
            final(self).world()[address@].storage_map() == prior_slots(
                old(self).world(),
                address@,
            ),
    {
        let mut acc = self.take_account(&address);
        acc.nonce = nonce;
        self.put_account(address, acc);
        proof {
            assert(final(self).world().dom() =~= old(self).world().dom().insert(address@));
        }
    }

    /// Advance the nonce at an address by one, wrapping modulo 2^256 and
    /// creating the account when absent.
    pub fn increment_nonce(&mut self, address: Address)
        requires
            old(self).well_formed(),
        ensures
            final(self).well_formed(),
            updated_at(old(self).world(), final(self).world(), address@),
            final(self).world()[address@].nonce.as_nat() == (prior_nonce(
                old(self).world(),
                address@,
            ).as_nat() + 1) % p256(),
            final(self).world()[address@].balance == prior_balance(old(self).world(), address@),
            final(self).world()[address@].code@ == prior_code(old(self).world(), address@),
            final(self).world()[address@].storage_map() == prior_slots(
                old(self).world(),
                address@,
            ),
    {
        let mut acc = self.take_account(&address);
        acc.increment_nonce();
        self.put_account(address, acc);
        proof {
            assert(final(self).world().dom() =~= old(self).world().dom().insert(address@));
        }
    }

    /// The code at an address, empty when absent.
    pub fn get_code(&self, address: &Address) -> (r: Vec<u8>)
        requires
            self.well_formed(),
        ensures
            r@ == prior_code(self.world(), address@),
    {
        match self.get_account(address) {
            Some(acc) => {
                let mut out: Vec<u8> = Vec::new();
                let n = acc.code.len();
                let mut i: usize = 0;
                while i < n
                    invariant
                        i <= n,
                        n == acc.code@.len(),
                        out@ =~= acc.code@.subrange(0, i as int),
                    decreases n - i,
                {
                    out.push(acc.code[i]);
                    i += 1;
                }
                proof {
                    assert(out@ =~= acc.code@);
                }
                out
            },
            None => Vec::new(),
        }
    }

    /// Set the code at an address, creating the account when absent.
    pub fn set_code(&mut self, address: Address, code: Vec<u8>)
        requires
            old(self).well_formed(),
        ensures
            final(self).well_formed(),
            updated_at(old(self).world(), final(self).world(), address@),
            final(self).world()[address@].code@ == code@,
            final(self).world()[address@].balance == prior_balance(old(self).world(), address@),
            final(self).world()[address@].nonce == prior_nonce(old(self).world(), address@),
            final(self).world()[address@].storage_map() == prior_slots(
                old(self).world(),
                address@,
            ),
    {
        let mut acc = self.take_account(&address);
        acc.code = code;
        self.put_account(address, acc);
        proof {
            assert(final(self).world().dom() =~= old(self).world().dom().insert(address@));
        }
    }

    /// The storage value at an address and key; absent accounts and absent
    /// keys read as zero.
    pub fn get_storage(&self, address: &Address, key: &Uint256) -> (r: Uint256)
        requires
            self.well_formed(),
        ensures
            r.as_nat() == if prior_slots(self.world(), address@).contains_key(key.as_nat()) {
                prior_slots(self.world(), address@)[key.as_nat()]
            } else {
                0nat
            },
    {
        match self.get_account(address) {
            Some(i) => {
                proof {
                    let j = world_index(self.accounts@, address@);
                    assert(self.accounts@[j].1.well_formed());
                }
                i.get_storage(key)
            },
            None => Uint256::zero(),
        }
    }

    /// Write the storage value at an address and key, creating the account
    /// when absent; a zero value removes the key.
    pub fn set_storage(&mut self, address: Address, key: Uint256, value: Uint256)
        requires
            old(self).well_formed(),
        ensures
            final(self).well_formed(),
            updated_at(old(self).world(), final(self).world(), address@),
            final(self).world()[address@].storage_map() == if value.as_nat() == 0 {
                prior_slots(old(self).world(), address@).remove(key.as_nat())
            } else {
                prior_slots(old(self).world(), address@).insert(key.as_nat(), value.as_nat())
            },
            final(self).world()[address@].balance == prior_balance(old(self).world(), address@),
            final(self).world()[address@].nonce == prior_nonce(old(self).world(), address@),
            final(self).world()[address@].code@ == prior_code(old(self).world(), address@),
    {
        let mut acc = self.take_account(&address);
        acc.set_storage(key, value);
        self.put_account(address, acc);
        proof {
            assert(final(self).world().dom() =~= old(self).world().dom().insert(address@));
        }
    }

    /// All stored accounts with their addresses; the mapping they denote is
    /// the world.
    pub fn accounts(&self) -> (r: &[(Address, Account)])
        ensures
            world_map(r@) == self.world(),
    {
        self.accounts.as_slice()
    }

    /// Forget every account.
    pub fn clear(&mut self)
        ensures
            final(self).well_formed(),
            final(self).world() == Map::<Seq<u8>, Account>::empty(),
    {
        self.accounts.clear();
        proof {
            assert(self.world() =~= Map::<Seq<u8>, Account>::empty());
        }
    }

    /// The number of stored accounts.
    pub fn account_count(&self) -> (r: usize)
        ensures
            r == self.spec_account_count(),
    {
        self.accounts.len()
    }
}

} // verus!
