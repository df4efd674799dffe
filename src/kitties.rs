//! The collectible store, the per-account ownership index and the calls
//! that change them. Every call checks all of its conditions before it
//! changes anything, so a refused call leaves the whole state as it was.
use vstd::prelude::*;
use crate::dna::{bit, breed_dna, lemma_child_bits_from_parents, mint_id, mint_id_spec, mix_spec};
use crate::ledger::Ledger;
use crate::types::{AccountId, Balance, Dna, Event, Kitty, KittyError, KittyId};
use crate::vec_map::{Key, VecMap};

verus! {

/// The state of the module: the collectible store, the ownership index,
/// the count of minted collectibles and the balance ledger, with the
/// capacity of an account and the stake charged per mint.
pub struct KittyModule {
    kitties: VecMap<KittyId, Kitty>,
    owned: VecMap<AccountId, Vec<KittyId>>,
    count: u64,
    balances: Ledger,
    max_owned: usize,
    stake: Balance,
}

/// `new` is `old` with one collectible `id`, of genetic code `dna`, minted
/// for `owner`, who paid the stake into reserve.
pub open spec fn minted(old: KittyModule, new: KittyModule, owner: AccountId, id: KittyId, dna: Dna) -> bool {
    &&& !old.kitties_map().contains_key(id)
    &&& new.kitties_map() == old.kitties_map().insert(id, Kitty { dna, owner, price: None })
    &&& new.owned_of(owner) == old.owned_of(owner).push(id)
    &&& forall|a: AccountId| a != owner ==> new.owned_of(a) == old.owned_of(a)
    &&& new.total() == old.total() + 1
    &&& new.ledger().free_of(owner) == old.ledger().free_of(owner) - old.stake()
    &&& new.ledger().reserved_of(owner) == old.ledger().reserved_of(owner) + old.stake()
    &&& forall|a: AccountId|
        a != owner ==> new.ledger().free_of(a) == old.ledger().free_of(a)
            && new.ledger().reserved_of(a) == old.ledger().reserved_of(a)
    &&& new.capacity() == old.capacity()
    &&& new.stake() == old.stake()
}

/// `new` is `old` with collectible `id` handed from `from` to `to`: it
/// leaves the sequence of `from`, joins the end of that of `to`, and is no
/// longer for sale. Balances are not part of this relation.
pub open spec fn moved(old: KittyModule, new: KittyModule, id: KittyId, from: AccountId, to: AccountId) -> bool {
    &&& new.kitties_map() == old.kitties_map().insert(
        id,
        Kitty { dna: old.kitties_map()[id].dna, owner: to, price: None },
    )
    &&& new.owned_of(from) == old.owned_of(from).remove(old.owned_of(from).index_of(id))
    &&& new.owned_of(to) == old.owned_of(to).push(id)
    &&& forall|a: AccountId| a != from && a != to ==> new.owned_of(a) == old.owned_of(a)
    &&& new.total() == old.total()
    &&& new.capacity() == old.capacity()
    &&& new.stake() == old.stake()
}

impl KittyModule {
    /// The collectible store.
    pub closed spec fn kitties_map(&self) -> Map<KittyId, Kitty> {
        self.kitties@
    }

    /// The identifiers that `who` owns, in the order they were received.
    pub closed spec fn owned_of(&self, who: AccountId) -> Seq<KittyId> {
        if self.owned@.contains_key(who) {
            self.owned@[who]@
        } else {
            seq![]
        }
    }

    /// The number of collectibles minted so far.
    pub closed spec fn total(&self) -> u64 {
        self.count
    }

    pub closed spec fn ledger(&self) -> Ledger {
        self.balances
    }

    /// The most identifiers one account may own.
    pub closed spec fn capacity(&self) -> nat {
        self.max_owned as nat
    }

    /// The amount reserved from an account for each collectible it mints.
    pub closed spec fn stake(&self) -> Balance {
        self.stake
    }

    /// Each identifier in an ownership sequence names a stored collectible
    /// whose owner is that account, each stored collectible is listed by its
    /// owner, and no sequence repeats an identifier or exceeds the capacity.
    pub closed spec fn consistent(&self) -> bool {
        &&& forall|a: AccountId, i: int|
            0 <= i < self.owned_of(a).len() ==> self.kitties_map().contains_key(
                #[trigger] self.owned_of(a)[i],
            ) && self.kitties_map()[self.owned_of(a)[i]].owner == a
        &&& forall|id: KittyId| #[trigger]
            self.kitties_map().contains_key(id) ==> self.owned_of(
                self.kitties_map()[id].owner,
            ).contains(id)
        &&& forall|a: AccountId| #[trigger] self.owned_of(a).no_duplicates()
        &&& forall|a: AccountId| #[trigger] self.owned_of(a).len() <= self.capacity()
    }

    pub closed spec fn wf(&self) -> bool {
        &&& self.kitties.wf()
        &&& self.owned.wf()
        &&& self.balances.wf()
        &&& self.consistent()
    }

    /// Whether a stored collectible has the identifier `bytes`.
    pub open spec fn id_taken(&self, bytes: Seq<u8>) -> bool {
        exists|k: KittyId| k.bytes@ == bytes && self.kitties_map().contains_key(k)
    }

    proof fn lemma_same_owners_consistent(old: KittyModule, new: KittyModule)
        requires
            old.consistent(),
            new.kitties_map().dom() == old.kitties_map().dom(),
            forall|k: KittyId| #[trigger]
                old.kitties_map().contains_key(k) ==> new.kitties_map()[k].owner
                    == old.kitties_map()[k].owner,
            forall|a: AccountId| new.owned_of(a) == old.owned_of(a),
            new.capacity() == old.capacity(),
        ensures
            new.consistent(),
    {
        assert forall|a: AccountId, i: int| 0 <= i < new.owned_of(a).len() implies new.kitties_map().contains_key(
            #[trigger] new.owned_of(a)[i],
        ) && new.kitties_map()[new.owned_of(a)[i]].owner == a by {
            assert(old.owned_of(a)[i] == new.owned_of(a)[i]);
            assert(old.kitties_map().contains_key(old.owned_of(a)[i]));
        }
        assert forall|k: KittyId| #[trigger]
            new.kitties_map().contains_key(k) implies new.owned_of(new.kitties_map()[k].owner).contains(
            k,
        ) by {
            assert(old.kitties_map().contains_key(k));
        }
        assert forall|a: AccountId| #[trigger] new.owned_of(a).no_duplicates() by {
            assert(old.owned_of(a).no_duplicates());
        }
        assert forall|a: AccountId| #[trigger] new.owned_of(a).len() <= new.capacity() by {
            assert(old.owned_of(a).len() <= old.capacity());
        }
    }

    proof fn lemma_mint_consistent(old: KittyModule, new: KittyModule, owner: AccountId, id: KittyId, dna: Dna)
        requires
            old.consistent(),
            !old.kitties_map().contains_key(id),
            old.owned_of(owner).len() < old.capacity(),
            new.kitties_map() == old.kitties_map().insert(id, Kitty { dna, owner, price: None }),
            new.owned_of(owner) == old.owned_of(owner).push(id),
            forall|a: AccountId| a != owner ==> new.owned_of(a) == old.owned_of(a),
            new.capacity() == old.capacity(),
        ensures
            new.consistent(),
    {
        assert forall|a: AccountId, i: int| 0 <= i < new.owned_of(a).len() implies new.kitties_map().contains_key(
            #[trigger] new.owned_of(a)[i],
        ) && new.kitties_map()[new.owned_of(a)[i]].owner == a by {
            if a == owner && i == old.owned_of(a).len() {
            } else {
                assert(old.owned_of(a)[i] == new.owned_of(a)[i]);
                assert(old.kitties_map().contains_key(old.owned_of(a)[i]));
            }
        }
        assert forall|k: KittyId| #[trigger]
            new.kitties_map().contains_key(k) implies new.owned_of(new.kitties_map()[k].owner).contains(
            k,
        ) by {
            if k == id {
                assert(new.owned_of(owner)[old.owned_of(owner).len() as int] == id);
            } else {
                let o = old.kitties_map()[k].owner;
                assert(old.owned_of(o).contains(k));
                let j = choose|j: int| 0 <= j < old.owned_of(o).len() && old.owned_of(o)[j] == k;
                assert(new.owned_of(o)[j] == k);
            }
        }
        assert forall|a: AccountId| #[trigger] new.owned_of(a).no_duplicates() by {
            assert(old.owned_of(a).no_duplicates());
            if a == owner {
                assert forall|i: int| 0 <= i < old.owned_of(a).len() implies old.owned_of(a)[i] != id by {
                    assert(old.kitties_map().contains_key(old.owned_of(a)[i]));
                }
            }
        }
        assert forall|a: AccountId| #[trigger] new.owned_of(a).len() <= new.capacity() by {
            assert(old.owned_of(a).len() <= old.capacity());
        }
    }

    proof fn lemma_move_consistent(old: KittyModule, new: KittyModule, id: KittyId, from: AccountId, to: AccountId)
        requires
            old.consistent(),
            old.kitties_map().contains_key(id),
            old.kitties_map()[id].owner == from,
            from != to,
            old.owned_of(to).len() < old.capacity(),
            moved(old, new, id, from, to),
        ensures
            new.consistent(),
    {
        let fs = old.owned_of(from);
        assert(fs.contains(id));
        let p = fs.index_of(id);
        assert(0 <= p < fs.len() && fs[p] == id);
        assert(fs.no_duplicates());
        assert forall|j: int| 0 <= j < fs.len() && j != p implies fs[j] != id by {}
        assert forall|a: AccountId, i: int| 0 <= i < new.owned_of(a).len() implies new.kitties_map().contains_key(
            #[trigger] new.owned_of(a)[i],
        ) && new.kitties_map()[new.owned_of(a)[i]].owner == a by {
            if a == from {
                let j = if i < p { i } else { i + 1 };
                assert(new.owned_of(a)[i] == fs[j]);
                assert(old.kitties_map().contains_key(old.owned_of(a)[j]));
            } else if a == to && i == old.owned_of(a).len() {
            } else {
                assert(new.owned_of(a)[i] == old.owned_of(a)[i]);
                assert(old.kitties_map().contains_key(old.owned_of(a)[i]));
            }
        }
        assert forall|k: KittyId| #[trigger]
            new.kitties_map().contains_key(k) implies new.owned_of(new.kitties_map()[k].owner).contains(
            k,
        ) by {
            if k == id {
                assert(new.owned_of(to)[old.owned_of(to).len() as int] == id);
            } else {
                let o = old.kitties_map()[k].owner;
                assert(old.owned_of(o).contains(k));
                let j = choose|j: int| 0 <= j < old.owned_of(o).len() && old.owned_of(o)[j] == k;
                if o == from {
                    let jj = if j < p { j } else { j - 1 };
                    assert(new.owned_of(o)[jj] == k);
                } else {
                    assert(new.owned_of(o)[j] == k);
                }
            }
        }
        assert forall|a: AccountId| #[trigger] new.owned_of(a).no_duplicates() by {
            assert(old.owned_of(a).no_duplicates());
            if a == from {
                assert forall|i: int, j: int|
                    0 <= i < new.owned_of(a).len() && 0 <= j < new.owned_of(a).len() && i != j
                        implies new.owned_of(a)[i] != new.owned_of(a)[j] by {
                    let ii = if i < p { i } else { i + 1 };
                    let jj = if j < p { j } else { j + 1 };
                    assert(new.owned_of(a)[i] == fs[ii]);
                    assert(new.owned_of(a)[j] == fs[jj]);
                }
            } else if a == to {
                assert forall|i: int| 0 <= i < old.owned_of(a).len() implies old.owned_of(a)[i] != id by {
                    assert(old.kitties_map().contains_key(old.owned_of(a)[i]));
                }
            }
        }
        assert forall|a: AccountId| #[trigger] new.owned_of(a).len() <= new.capacity() by {
            assert(old.owned_of(a).len() <= old.capacity());
        }
    }
}

fn copy_ids(v: &Vec<KittyId>) -> (r: Vec<KittyId>)
    ensures
        r@ == v@,
{
    let mut r: Vec<KittyId> = Vec::new();
    let mut i: usize = 0;
    while i < v.len()
        invariant
            i <= v@.len(),
            r@ == v@.subrange(0, i as int),
        decreases v@.len() - i,
    {
        r.push(v[i]);
        i = i + 1;
        assert(r@ =~= v@.subrange(0, i as int));
    }
    assert(v@.subrange(0, v@.len() as int) =~= v@);
    r
}

fn position(v: &Vec<KittyId>, id: &KittyId) -> (p: usize)
    requires
        v@.contains(*id),
    ensures
        p < v@.len(),
        v@[p as int] == *id,
{
    let mut i: usize = 0;
    while i < v.len()
        invariant
            i <= v@.len(),
            v@.contains(*id),
            forall|j: int| 0 <= j < i ==> v@[j] != *id,
        decreases v@.len() - i,
    {
        if v[i].same(id) {
            return i;
        }
        i = i + 1;
    }
    i
}

impl KittyModule {
    /// An empty store in which an account may own at most `max_owned`
    /// collectibles and each mint reserves `stake` from its owner.
    pub fn new(max_owned: usize, stake: Balance) -> (r: KittyModule)
        ensures
            r.wf(),
            r.kitties_map() == Map::<KittyId, Kitty>::empty(),
            forall|a: AccountId| r.owned_of(a) == Seq::<KittyId>::empty(),
            forall|a: AccountId| r.ledger().free_of(a) == 0 && r.ledger().reserved_of(a) == 0,
            r.total() == 0,
            r.capacity() == max_owned,
            r.stake() == stake,
    {
        KittyModule {
            kitties: VecMap::new(),
            owned: VecMap::new(),
            count: 0,
            balances: Ledger::new(),
            max_owned,
            stake,
        }
    }

    /// The identifiers that `who` owns, in the order they were received.
    pub fn kitties_owned(&self, who: AccountId) -> (r: Vec<KittyId>)
        requires
            self.wf(),
        ensures
            r@ == self.owned_of(who),
    {
        match self.owned.get(&who) {
            Some(v) => copy_ids(v),
            None => Vec::new(),
        }
    }

    fn owned_len(&self, who: AccountId) -> (r: usize)
        requires
            self.wf(),
        ensures
            r == self.owned_of(who).len(),
    {
        match self.owned.get(&who) {
            Some(v) => v.len(),
            None => 0,
        }
    }

    /// The stored record of `id`, if there is one.
    pub fn kitty(&self, id: &KittyId) -> (r: Option<Kitty>)
        requires
            self.wf(),
        ensures
            r == if self.kitties_map().contains_key(*id) {
                Some(self.kitties_map()[*id])
            } else {
                None::<Kitty>
            },
    {
        match self.kitties.get(id) {
            Some(k) => Some(*k),
            None => None,
        }
    }

    pub fn kitties_count(&self) -> (r: u64)
        ensures
            r == self.total(),
    {
        self.count
    }

    pub fn free_balance(&self, who: AccountId) -> (r: Balance)
        requires
            self.wf(),
        ensures
            r == self.ledger().free_of(who),
    {
        self.balances.free_balance(who)
    }

    pub fn reserved_balance(&self, who: AccountId) -> (r: Balance)
        requires
            self.wf(),
        ensures
            r == self.ledger().reserved_of(who),
    {
        self.balances.reserved_balance(who)
    }

    /// Sets both balances of `who`; collectibles and other accounts are untouched.
    pub fn set_balance(&mut self, who: AccountId, free: Balance, reserved: Balance)
        requires
            old(self).wf(),
        ensures
            final(self).wf(),
            final(self).ledger().free_of(who) == free,
            final(self).ledger().reserved_of(who) == reserved,
            forall|a: AccountId|
                a != who ==> final(self).ledger().free_of(a) == old(self).ledger().free_of(a)
                    && final(self).ledger().reserved_of(a) == old(self).ledger().reserved_of(a),
            final(self).kitties_map() == old(self).kitties_map(),
            forall|a: AccountId| final(self).owned_of(a) == old(self).owned_of(a),
            final(self).total() == old(self).total(),
            final(self).capacity() == old(self).capacity(),
            final(self).stake() == old(self).stake(),
    {
        self.balances.set_balance(who, free, reserved);
        proof {
            Self::lemma_same_owners_consistent(*old(self), *self);
        }
    }

    fn can_reserve_stake(&self, who: AccountId) -> (r: bool)
        requires
            self.wf(),
        ensures
            r == self.ledger().can_reserve(who, self.stake()),
    {
        let free = self.balances.free_balance(who);
        let reserved = self.balances.reserved_balance(who);
        self.stake <= free && reserved <= Balance::MAX - self.stake
    }

    fn mint(&mut self, owner: AccountId, dna: Dna, salt: u128) -> (r: Result<KittyId, KittyError>)
        requires
            old(self).wf(),
            old(self).ledger().can_reserve(owner, old(self).stake()),
            old(self).owned_of(owner).len() < old(self).capacity(),
        ensures
            final(self).wf(),
            old(self).id_taken(mint_id_spec(owner, dna, salt)) ==> r == Err::<KittyId, KittyError>(
                KittyError::KittyIdTaken,
            ) && *final(self) == *old(self),
            !old(self).id_taken(mint_id_spec(owner, dna, salt)) && old(self).total() == u64::MAX
                ==> r == Err::<KittyId, KittyError>(KittyError::KittiesCountOverflow) && *final(self)
                == *old(self),
            !old(self).id_taken(mint_id_spec(owner, dna, salt)) && old(self).total() < u64::MAX
                ==> (r matches Ok(id) && id.bytes@ == mint_id_spec(owner, dna, salt) && minted(
                *old(self),
                *final(self),
                owner,
                id,
                dna,
            )),
    {
        let id = mint_id(owner, dna, salt);
        proof {
            assert forall|k: KittyId| k.bytes@ == id.bytes@ implies k == id by {
                assert(k.bytes =~= id.bytes);
            }
        }
        if self.kitties.contains(&id) {
            return Err(KittyError::KittyIdTaken);
        }
        if self.count == u64::MAX {
            return Err(KittyError::KittiesCountOverflow);
        }
        let mut ids = self.kitties_owned(owner);
        ids.push(id);
        let stake = self.stake;
        let _ = self.balances.reserve(owner, stake);
        self.kitties.insert(id, Kitty { dna, owner, price: None });
        self.owned.insert(owner, ids);
        self.count = self.count + 1;
        proof {
            assert forall|a: AccountId| a != owner implies self.owned_of(a) == old(self).owned_of(a) by {}
            Self::lemma_mint_consistent(*old(self), *self, owner, id, dna);
        }
        Ok(id)
    }

    fn move_kitty(&mut self, id: KittyId, from: AccountId, to: AccountId)
        requires
            old(self).wf(),
            old(self).kitties_map().contains_key(id),
            old(self).kitties_map()[id].owner == from,
            from != to,
            old(self).owned_of(to).len() < old(self).capacity(),
        ensures
            final(self).wf(),
            moved(*old(self), *final(self), id, from, to),
            final(self).ledger() == old(self).ledger(),
    {
        let dna = match self.kitties.get(&id) {
            Some(k) => k.dna,
            None => 0,
        };
        let mut from_ids = self.kitties_owned(from);
        let p = position(&from_ids, &id);
        proof {
            let fs = old(self).owned_of(from);
            assert(fs.no_duplicates());
            assert(fs.index_of(id) == p);
        }
        from_ids.remove(p);
        let mut to_ids = self.kitties_owned(to);
        to_ids.push(id);
        self.owned.insert(from, from_ids);
        self.owned.insert(to, to_ids);
        self.kitties.insert(id, Kitty { dna, owner: to, price: None });
        proof {
            assert forall|a: AccountId| a != from && a != to implies self.owned_of(a) == old(
                self,
            ).owned_of(a) by {}
            Self::lemma_move_consistent(*old(self), *self, id, from, to);
        }
    }
}

impl KittyModule {
    /// The refusal that `create` gives, if any.
    pub open spec fn create_error(&self, caller: AccountId, dna: Dna, salt: u128) -> Option<KittyError> {
        if !self.ledger().can_reserve(caller, self.stake()) {
            Some(KittyError::NotEnoughBalance)
        } else if self.owned_of(caller).len() >= self.capacity() {
            Some(KittyError::ExceedMaxKittyOwned)
        } else if self.id_taken(mint_id_spec(caller, dna, salt)) {
            Some(KittyError::KittyIdTaken)
        } else if self.total() == u64::MAX {
            Some(KittyError::KittiesCountOverflow)
        } else {
            None
        }
    }

    /// Mints a collectible of genetic code `dna` for `caller`, naming it by
    /// hashing the code, the caller and the random `salt`, and reserves the
    /// stake from the caller's free balance.
    pub fn create(&mut self, caller: AccountId, dna: Dna, salt: u128) -> (r: Result<Event, KittyError>)
        requires
            old(self).wf(),
        ensures
            final(self).wf(),
            match old(self).create_error(caller, dna, salt) {
                Some(e) => r == Err::<Event, KittyError>(e) && *final(self) == *old(self),
                None => r matches Ok(Event::Created { owner, id }) && owner == caller
                    && id.bytes@ == mint_id_spec(caller, dna, salt) && minted(
                    *old(self),
                    *final(self),
                    caller,
                    id,
                    dna,
                ),
            },
    {
        if !self.can_reserve_stake(caller) {
            return Err(KittyError::NotEnoughBalance);
        }
        if self.owned_len(caller) >= self.max_owned {
            return Err(KittyError::ExceedMaxKittyOwned);
        }
        match self.mint(caller, dna, salt) {
            Ok(id) => Ok(Event::Created { owner: caller, id }),
            Err(e) => Err(e),
        }
    }

    /// The refusal that `set_price` gives, if any.
    pub open spec fn set_price_error(&self, caller: AccountId, id: KittyId) -> Option<KittyError> {
        if !self.kitties_map().contains_key(id) {
            Some(KittyError::KittyNotExist)
        } else if self.kitties_map()[id].owner != caller {
            Some(KittyError::NotKittyOwner)
        } else {
            None
        }
    }

    /// Lists `id` for sale at `new_price`, or withdraws it with `None`.
    pub fn set_price(&mut self, caller: AccountId, id: KittyId, new_price: Option<Balance>) -> (r: Result<
        Event,
        KittyError,
    >)
        requires
            old(self).wf(),
        ensures
            final(self).wf(),
            match old(self).set_price_error(caller, id) {
                Some(e) => r == Err::<Event, KittyError>(e) && *final(self) == *old(self),
                None => {
                    &&& r == Ok::<Event, KittyError>(
                        Event::PriceSet { owner: caller, id, price: new_price },
                    )
                    &&& final(self).kitties_map() == old(self).kitties_map().insert(
                        id,
                        Kitty { dna: old(self).kitties_map()[id].dna, owner: caller, price: new_price },
                    )
                    &&& forall|a: AccountId| final(self).owned_of(a) == old(self).owned_of(a)
                    &&& final(self).total() == old(self).total()
                    &&& final(self).ledger() == old(self).ledger()
                    &&& final(self).capacity() == old(self).capacity()
                    &&& final(self).stake() == old(self).stake()
                },
            },
    {
        let dna = match self.kitties.get(&id) {
            None => {
                return Err(KittyError::KittyNotExist);
            },
            Some(k) => {
                if k.owner != caller {
                    return Err(KittyError::NotKittyOwner);
                }
                k.dna
            },
        };
        self.kitties.insert(id, Kitty { dna, owner: caller, price: new_price });
        proof {
            assert(self.kitties_map().dom() =~= old(self).kitties_map().dom());
            Self::lemma_same_owners_consistent(*old(self), *self);
        }
        Ok(Event::PriceSet { owner: caller, id, price: new_price })
    }

    /// The refusal that `transfer` gives, if any.
    pub open spec fn transfer_error(&self, caller: AccountId, to: AccountId, id: KittyId) -> Option<KittyError> {
        if !self.kitties_map().contains_key(id) {
            Some(KittyError::KittyNotExist)
        } else if self.kitties_map()[id].owner != caller {
            Some(KittyError::NotKittyOwner)
        } else if to == caller {
            Some(KittyError::TransferToSelf)
        } else if self.owned_of(to).len() >= self.capacity() {
            Some(KittyError::ExceedMaxKittyOwned)
        } else {
            None
        }
    }

    /// Gives `id` from `caller` to `to`; no money moves and any listing is
    /// withdrawn.
    pub fn transfer(&mut self, caller: AccountId, to: AccountId, id: KittyId) -> (r: Result<Event, KittyError>)
        requires
            old(self).wf(),
        ensures
            final(self).wf(),
            match old(self).transfer_error(caller, to, id) {
                Some(e) => r == Err::<Event, KittyError>(e) && *final(self) == *old(self),
                None => {
                    &&& r == Ok::<Event, KittyError>(Event::Transferred { from: caller, to, id })
                    &&& moved(*old(self), *final(self), id, caller, to)
                    &&& final(self).ledger() == old(self).ledger()
                },
            },
    {
        match self.kitties.get(&id) {
            None => {
                return Err(KittyError::KittyNotExist);
            },
            Some(k) => {
                if k.owner != caller {
                    return Err(KittyError::NotKittyOwner);
                }
            },
        }
        if to == caller {
            return Err(KittyError::TransferToSelf);
        }
        if self.owned_len(to) >= self.max_owned {
            return Err(KittyError::ExceedMaxKittyOwned);
        }
        self.move_kitty(id, caller, to);
        Ok(Event::Transferred { from: caller, to, id })
    }

    /// The same call as `transfer`, under another name.
    pub fn sell(&mut self, caller: AccountId, to: AccountId, id: KittyId) -> (r: Result<Event, KittyError>)
        requires
            old(self).wf(),
        ensures
            final(self).wf(),
            match old(self).transfer_error(caller, to, id) {
                Some(e) => r == Err::<Event, KittyError>(e) && *final(self) == *old(self),
                None => {
                    &&& r == Ok::<Event, KittyError>(Event::Transferred { from: caller, to, id })
                    &&& moved(*old(self), *final(self), id, caller, to)
                    &&& final(self).ledger() == old(self).ledger()
                },
            },
    {
        self.transfer(caller, to, id)
    }
}

impl KittyModule {
    /// The refusal that `buy` gives, if any.
    pub open spec fn buy_error(&self, caller: AccountId, id: KittyId, bid_price: Balance) -> Option<KittyError> {
        if !self.kitties_map().contains_key(id) {
            Some(KittyError::KittyNotExist)
        } else if self.kitties_map()[id].owner == caller {
            Some(KittyError::BuyerIsKittyOwner)
        } else if self.kitties_map()[id].price is None {
            Some(KittyError::KittyNotForSale)
        } else if bid_price < self.kitties_map()[id].price->Some_0 {
            Some(KittyError::KittyBidPriceTooLow)
        } else if !self.ledger().can_pay(
            caller,
            self.kitties_map()[id].owner,
            self.kitties_map()[id].price->Some_0,
        ) {
            Some(KittyError::NotEnoughBalance)
        } else if self.owned_of(caller).len() >= self.capacity() {
            Some(KittyError::ExceedMaxKittyOwned)
        } else {
            None
        }
    }

    /// Buys the listed collectible `id` for `caller`, who bids `bid_price`;
    /// the listed price, not the bid, is paid to the owner.
    pub fn buy(&mut self, caller: AccountId, id: KittyId, bid_price: Balance) -> (r: Result<Event, KittyError>)
        requires
            old(self).wf(),
        ensures
            final(self).wf(),
            match old(self).buy_error(caller, id, bid_price) {
                Some(e) => r == Err::<Event, KittyError>(e) && *final(self) == *old(self),
                None => {
                    let seller = old(self).kitties_map()[id].owner;
                    let price = old(self).kitties_map()[id].price->Some_0;
                    &&& r == Ok::<Event, KittyError>(
                        Event::Bought { buyer: caller, seller, id, price },
                    )
                    &&& moved(*old(self), *final(self), id, seller, caller)
                    &&& final(self).ledger().free_of(caller) == old(self).ledger().free_of(caller)
                        - price
                    &&& final(self).ledger().free_of(seller) == old(self).ledger().free_of(seller)
                        + price
                    &&& forall|a: AccountId|
                        a != caller && a != seller ==> final(self).ledger().free_of(a) == old(
                            self,
                        ).ledger().free_of(a)
                    &&& forall|a: AccountId|
                        final(self).ledger().reserved_of(a) == old(self).ledger().reserved_of(a)
                },
            },
    {
        let (seller, price) = match self.kitties.get(&id) {
            None => {
                return Err(KittyError::KittyNotExist);
            },
            Some(k) => (k.owner, k.price),
        };
        if seller == caller {
            return Err(KittyError::BuyerIsKittyOwner);
        }
        let price = match price {
            None => {
                return Err(KittyError::KittyNotForSale);
            },
            Some(p) => p,
        };
        if bid_price < price {
            return Err(KittyError::KittyBidPriceTooLow);
        }
        let caller_free = self.balances.free_balance(caller);
        let seller_free = self.balances.free_balance(seller);
        if price > caller_free || seller_free > Balance::MAX - price {
            return Err(KittyError::NotEnoughBalance);
        }
        if self.owned_len(caller) >= self.max_owned {
            return Err(KittyError::ExceedMaxKittyOwned);
        }
        let _ = self.balances.transfer(caller, seller, price);
        proof {
            Self::lemma_same_owners_consistent(*old(self), *self);
        }
        let ghost paid = *self;
        self.move_kitty(id, seller, caller);
        proof {
            assert(moved(paid, *self, id, seller, caller));
        }
        Ok(Event::Bought { buyer: caller, seller, id, price })
    }

    /// The refusal that `breed` gives, if any.
    pub open spec fn breed_error(
        &self,
        caller: AccountId,
        parent_a: KittyId,
        parent_b: KittyId,
        mask: u128,
        salt: u128,
    ) -> Option<KittyError> {
        if !self.kitties_map().contains_key(parent_a) || !self.kitties_map().contains_key(parent_b) {
            Some(KittyError::KittyNotExist)
        } else if self.kitties_map()[parent_a].owner != caller || self.kitties_map()[parent_b].owner
            != caller {
            Some(KittyError::NotKittyOwner)
        } else if self.owned_of(caller).len() >= self.capacity() {
            Some(KittyError::ExceedMaxKittyOwned)
        } else if !self.ledger().can_reserve(caller, self.stake()) {
            Some(KittyError::NotEnoughBalance)
        } else if self.id_taken(
            mint_id_spec(
                caller,
                mix_spec(self.kitties_map()[parent_a].dna, self.kitties_map()[parent_b].dna, mask),
                salt,
            ),
        ) {
            Some(KittyError::KittyIdTaken)
        } else if self.total() == u64::MAX {
            Some(KittyError::KittiesCountOverflow)
        } else {
            None
        }
    }

    /// Mints for `caller` a child of two collectibles it owns. Each bit of
    /// the child's code comes from `parent_a` where the random `mask` has a
    /// set bit and from `parent_b` elsewhere; the parents stay as they are.
    pub fn breed(&mut self, caller: AccountId, parent_a: KittyId, parent_b: KittyId, mask: u128, salt: u128) -> (r:
        Result<Event, KittyError>)
        requires
            old(self).wf(),
        ensures
            final(self).wf(),
            match old(self).breed_error(caller, parent_a, parent_b, mask, salt) {
                Some(e) => r == Err::<Event, KittyError>(e) && *final(self) == *old(self),
                None => {
                    let dna = mix_spec(
                        old(self).kitties_map()[parent_a].dna,
                        old(self).kitties_map()[parent_b].dna,
                        mask,
                    );
                    r matches Ok(Event::Created { owner, id }) && owner == caller && id.bytes@
                        == mint_id_spec(caller, dna, salt) && minted(
                        *old(self),
                        *final(self),
                        caller,
                        id,
                        dna,
                    )
                },
            },
    {
        let (dna_a, owner_a) = match self.kitties.get(&parent_a) {
            None => {
                return Err(KittyError::KittyNotExist);
            },
            Some(k) => (k.dna, k.owner),
        };
        let (dna_b, owner_b) = match self.kitties.get(&parent_b) {
            None => {
                return Err(KittyError::KittyNotExist);
            },
            Some(k) => (k.dna, k.owner),
        };
        if owner_a != caller || owner_b != caller {
            return Err(KittyError::NotKittyOwner);
        }
        if self.owned_len(caller) >= self.max_owned {
            return Err(KittyError::ExceedMaxKittyOwned);
        }
        if !self.can_reserve_stake(caller) {
            return Err(KittyError::NotEnoughBalance);
        }
        let dna = breed_dna(dna_a, dna_b, mask);
        match self.mint(caller, dna, salt) {
            Ok(id) => Ok(Event::Created { owner: caller, id }),
            Err(e) => Err(e),
        }
    }
}

/// In a well-formed state a stored collectible is listed by exactly one
/// account: its owner.
pub proof fn lemma_single_owner(m: KittyModule, id: KittyId)
    requires
        m.wf(),
        m.kitties_map().contains_key(id),
    ensures
        m.owned_of(m.kitties_map()[id].owner).contains(id),
        forall|a: AccountId| #[trigger] m.owned_of(a).contains(id) ==> a == m.kitties_map()[id].owner,
{
    assert forall|a: AccountId| #[trigger] m.owned_of(a).contains(id) implies a
        == m.kitties_map()[id].owner by {
        let i = choose|i: int| 0 <= i < m.owned_of(a).len() && m.owned_of(a)[i] == id;
        assert(m.kitties_map()[m.owned_of(a)[i]].owner == a);
    }
}

/// After a collectible changes hands, the receiver's sequence and no other
/// lists it.
pub proof fn lemma_moved_single_owner(old: KittyModule, new: KittyModule, id: KittyId, from: AccountId, to: AccountId)
    requires
        new.wf(),
        moved(old, new, id, from, to),
    ensures
        new.owned_of(to).contains(id),
        forall|a: AccountId| #[trigger] new.owned_of(a).contains(id) ==> a == to,
{
    assert(new.kitties_map().contains_key(id));
    lemma_single_owner(new, id);
}

/// In a well-formed state no account's sequence is longer than the capacity.
pub proof fn lemma_owned_within_capacity(m: KittyModule, who: AccountId)
    requires
        m.wf(),
    ensures
        m.owned_of(who).len() <= m.capacity(),
{
}

/// Minting a collectible leaves every other stored record as it was and
/// every other identifier where it was listed.
pub proof fn lemma_mint_keeps_others(
    old: KittyModule,
    new: KittyModule,
    owner: AccountId,
    id: KittyId,
    dna: Dna,
    other: KittyId,
    who: AccountId,
)
    requires
        minted(old, new, owner, id, dna),
        old.kitties_map().contains_key(other),
    ensures
        new.kitties_map().contains_key(other),
        new.kitties_map()[other] == old.kitties_map()[other],
        old.owned_of(who).contains(other) ==> new.owned_of(who).contains(other),
{
    assert(other != id);
    if old.owned_of(who).contains(other) && who == owner {
        let i = choose|i: int| 0 <= i < old.owned_of(who).len() && old.owned_of(who)[i] == other;
        assert(new.owned_of(who)[i] == other);
    }
}

/// A successful breeding leaves both parents stored as they were, and each
/// bit of the child's code equals the bit of one parent at that position.
pub proof fn lemma_bred_child(
    old: KittyModule,
    new: KittyModule,
    caller: AccountId,
    id: KittyId,
    parent_a: KittyId,
    parent_b: KittyId,
    mask: u128,
)
    requires
        old.kitties_map().contains_key(parent_a),
        old.kitties_map().contains_key(parent_b),
        minted(
            old,
            new,
            caller,
            id,
            mix_spec(old.kitties_map()[parent_a].dna, old.kitties_map()[parent_b].dna, mask),
        ),
    ensures
        new.kitties_map().contains_key(parent_a) && new.kitties_map()[parent_a]
            == old.kitties_map()[parent_a],
        new.kitties_map().contains_key(parent_b) && new.kitties_map()[parent_b]
            == old.kitties_map()[parent_b],
        forall|i: u128|
            i < 128 ==> #[trigger] bit(new.kitties_map()[id].dna, i) == bit(
                old.kitties_map()[parent_a].dna,
                i,
            ) || bit(new.kitties_map()[id].dna, i) == bit(old.kitties_map()[parent_b].dna, i),
{
    let a = old.kitties_map()[parent_a].dna;
    let b = old.kitties_map()[parent_b].dna;
    assert(parent_a != id && parent_b != id);
    assert forall|i: u128| i < 128 implies #[trigger] bit(new.kitties_map()[id].dna, i) == bit(a, i)
        || bit(new.kitties_map()[id].dna, i) == bit(b, i) by {
        lemma_child_bits_from_parents(a, b, mask, i);
    }
}

} // verus!
