//! Identifiers, records, events and errors of the collectible module.
use vstd::prelude::*;
use crate::vec_map::Key;

verus! {

pub type AccountId = u64;

pub type Balance = u128;

/// A 128-bit genetic code.
pub type Dna = u128;

/// A 256-bit collectible identifier.
#[derive(Clone, Copy, Debug, PartialEq, Eq)]
pub struct KittyId {
    pub bytes: [u8; 32],
}

impl KittyId {
    pub fn new(bytes: [u8; 32]) -> (r: KittyId)
        ensures
            r.bytes == bytes,
    {
        KittyId { bytes }
    }
}

impl Key for KittyId {
    fn same(&self, other: &Self) -> (r: bool) {
        let mut i: usize = 0;
        while i < 32
            invariant
                i <= 32,
                forall|j: int| 0 <= j < i ==> self.bytes[j] == other.bytes[j],
            decreases 32 - i,
        {
            if self.bytes[i] != other.bytes[i] {
                return false;
            }
            i = i + 1;
        }
        assert(self.bytes =~= other.bytes);
        true
    }
}

/// What the store holds for one collectible.
#[derive(Clone, Copy, Debug, PartialEq, Eq)]
pub struct Kitty {
    pub dna: Dna,
    pub owner: AccountId,
    pub price: Option<Balance>,
}

/// What a successful call reports.
#[derive(Clone, Copy, Debug, PartialEq, Eq)]
#[allow(inconsistent_fields)]
pub enum Event {
    Created { owner: AccountId, id: KittyId },
    PriceSet { owner: AccountId, id: KittyId, price: Option<Balance> },
    Transferred { from: AccountId, to: AccountId, id: KittyId },
    Bought { buyer: AccountId, seller: AccountId, id: KittyId, price: Balance },
}

/// Why a call was refused; a refused call changes nothing.
#[derive(Clone, Copy, Debug, PartialEq, Eq)]
pub enum KittyError {
    KittyNotExist,
    NotKittyOwner,
    TransferToSelf,
    ExceedMaxKittyOwned,
    NotEnoughBalance,
    KittyNotForSale,
    KittyBidPriceTooLow,
    BuyerIsKittyOwner,
    /// The derived identifier is already in the store.
    KittyIdTaken,
    /// The total count of minted collectibles would wrap.
    KittiesCountOverflow,
}

} // verus!
