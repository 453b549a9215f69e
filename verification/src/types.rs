use vstd::prelude::*;

use crate::str_map::StrMap;

verus! {

/// The best offer on a sale in one fungible token: who made it and how much
/// (in the token's smallest unit) is held for it.
#[derive(Debug)]
pub struct Bid {
    pub owner_id: String,
    pub price: u128,
}

/// A token listed on the market.
///
/// `sale_conditions` maps each fungible token accepted for the sale to its
/// asking price, `bids` maps each fungible token to the current bid in it.
#[derive(Debug)]
pub struct Sale {
    pub owner_id: String,
    pub approval_id: u64,
    pub nft_contract_id: String,
    pub token_id: String,
    pub sale_conditions: StrMap<u128>,
    pub bids: StrMap<Bid>,
    pub created_at: u64,
    pub is_auction: bool,
    pub is_royalties: bool,
    pub royalties: Option<StrMap<u8>>,
}

impl Bid {
    /// A copy of the bid.
    pub fn duplicate(&self) -> (r: Bid)
        ensures
            r == *self,
    {
        Bid { owner_id: self.owner_id.clone(), price: self.price }
    }
}

/// Two optional maps hold the same entries.
pub open spec fn same_royalties(a: Option<StrMap<u8>>, b: Option<StrMap<u8>>) -> bool {
    match (a, b) {
        (Some(x), Some(y)) => x@ == y@,
        (None, None) => true,
        _ => false,
    }
}

impl Sale {
    /// The two sales agree in every field, maps compared by what they hold.
    pub open spec fn same_as(self, other: Sale) -> bool {
        &&& self.owner_id@ == other.owner_id@
        &&& self.approval_id == other.approval_id
        &&& self.nft_contract_id@ == other.nft_contract_id@
        &&& self.token_id@ == other.token_id@
        &&& self.sale_conditions@ == other.sale_conditions@
        &&& self.bids@ == other.bids@
        &&& self.created_at == other.created_at
        &&& self.is_auction == other.is_auction
        &&& self.is_royalties == other.is_royalties
        &&& same_royalties(self.royalties, other.royalties)
    }

    /// The two sales agree in every field but the bids.
    pub open spec fn same_but_bids(self, other: Sale) -> bool {
        &&& self.owner_id@ == other.owner_id@
        &&& self.approval_id == other.approval_id
        &&& self.nft_contract_id@ == other.nft_contract_id@
        &&& self.token_id@ == other.token_id@
        &&& self.sale_conditions@ == other.sale_conditions@
        &&& self.created_at == other.created_at
        &&& self.is_auction == other.is_auction
        &&& self.is_royalties == other.is_royalties
        &&& same_royalties(self.royalties, other.royalties)
    }

    /// The two sales agree in every field but the sale conditions.
    pub open spec fn same_but_conditions(self, other: Sale) -> bool {
        &&& self.owner_id@ == other.owner_id@
        &&& self.approval_id == other.approval_id
        &&& self.nft_contract_id@ == other.nft_contract_id@
        &&& self.token_id@ == other.token_id@
        &&& self.bids@ == other.bids@
        &&& self.created_at == other.created_at
        &&& self.is_auction == other.is_auction
        &&& self.is_royalties == other.is_royalties
        &&& same_royalties(self.royalties, other.royalties)
    }

    /// Whether the maps inside the sale keep each key once.
    pub fn check_wf(&self) -> (ok: bool)
        ensures
            ok == self.wf(),
    {
        self.sale_conditions.check_wf() && self.bids.check_wf() && match &self.royalties {
            Some(r) => r.check_wf(),
            None => true,
        }
    }

    /// A copy of the sale.
    pub fn duplicate(&self) -> (r: Sale)
        requires
            self.wf(),
        ensures
            r.wf(),
            r.same_as(*self),
    {
        Sale {
            owner_id: self.owner_id.clone(),
            approval_id: self.approval_id,
            nft_contract_id: self.nft_contract_id.clone(),
            token_id: self.token_id.clone(),
            sale_conditions: self.sale_conditions.duplicate(),
            bids: self.bids.duplicate_bids(),
            created_at: self.created_at,
            is_auction: self.is_auction,
            is_royalties: self.is_royalties,
            royalties: match &self.royalties {
                Some(r) => Some(r.duplicate()),
                None => None,
            },
        }
    }

    /// The maps inside the sale keep each key once.
    pub open spec fn wf(&self) -> bool {
        &&& self.sale_conditions.wf()
        &&& self.bids.wf()
        &&& (self.royalties matches Some(r) ==> r.wf())
    }
}

/// The token that a purchase is about.
#[derive(Debug)]
pub struct PurchaseArgs {
    pub nft_contract_id: String,
    pub token_id: String,
}

/// What a seller attaches, as the approval message, when listing a token.
#[derive(Debug)]
pub struct SaleArgs {
    pub sale_conditions: StrMap<u128>,
    pub is_auction: Option<bool>,
    pub is_royalties: Option<bool>,
    pub royalties: Option<StrMap<u8>>,
}

impl SaleArgs {
    /// The maps inside the arguments keep each key once.
    pub open spec fn wf(&self) -> bool {
        &&& self.sale_conditions.wf()
        &&& (self.royalties matches Some(r) ==> r.wf())
    }
}

/// A payment in NEAR that the market sends out.
#[derive(Debug, PartialEq, Eq)]
pub struct Transfer {
    pub receiver_id: String,
    pub amount: u128,
}

/// A purchase to carry out: move the token to the buyer through its NFT
/// contract (one yoctoNEAR attached, with the seller's approval), then pay
/// the seller the price less the market's fee.
#[derive(Debug)]
pub struct Purchase {
    pub nft_contract_id: String,
    pub token_id: String,
    pub buyer_id: String,
    pub approval_id: u64,
    pub ft_token_id: String,
    pub price: u128,
    pub sale: Sale,
}

/// What an offer led to.
#[derive(Debug)]
pub enum OfferOutcome {
    /// The deposit matched the asking price: the token is bought.
    Purchased(Purchase),
    /// The deposit was below the asking price: it became the bid, and the
    /// bid it replaced (if any) is paid back.
    BidPlaced { refund: Option<Transfer> },
    /// Neither: an auction, or a deposit above the asking price.
    Kept,
}

/// The least and the most that an account may hold as storage deposit.
#[derive(Debug, PartialEq, Eq)]
pub struct StorageBalanceBounds {
    pub min: u128,
    pub max: Option<u128>,
}

/// The contract's persistent collections, each of which is stored under
/// its own prefix.
#[derive(Debug, PartialEq, Eq, Clone, Copy)]
pub enum StorageKey {
    FTTokenIds,
    StorageDeposits,
    ByOwnerId,
}

impl StorageKey {
    /// The storage prefix of the collection: its position among the keys, as one byte.
    pub fn into_storage_key(self) -> (key: Vec<u8>)
        ensures
            key@ == seq![
                match self {
                    StorageKey::FTTokenIds => 0u8,
                    StorageKey::StorageDeposits => 1u8,
                    StorageKey::ByOwnerId => 2u8,
                },
            ],
    {
        let b: u8 = match self {
            StorageKey::FTTokenIds => 0,
            StorageKey::StorageDeposits => 1,
            StorageKey::ByOwnerId => 2,
        };
        let mut key: Vec<u8> = Vec::new();
        key.push(b);
        key
    }
}

/// Why the market refused a call. A refused call changes nothing.
#[derive(Debug, PartialEq, Eq)]
pub enum MarketError {
    /// Only the contract's owner may call this method.
    OwnerOnly,
    /// A storage deposit must be at least `minimum`.
    DepositBelowMinimum { minimum: u128 },
    /// The call must come with exactly one yoctoNEAR attached.
    RequiresOneYocto,
    /// An amount left the range of a `u128`.
    ArithmeticOverflow,
    /// There is no sale for this token.
    NoSale,
    /// The sale's owner has no sales indexed.
    NoSaleByOwnerId,
    /// The sale's NFT contract has no sales indexed.
    NoSaleByNftContractId,
    /// Only the sale's owner may call this method.
    NotSaleOwner,
    /// A new price must be above the current bid.
    PriceNotAboveBid,
    /// The market does not accept this fungible token.
    TokenNotSupported { ft_token_id: String },
    /// A seller cannot bid on their own sale.
    OwnSale,
    /// The sale has no price in NEAR.
    NotForSaleInNear,
    /// An offer must come with a deposit.
    ZeroDeposit,
    /// The sale has no bid in this token.
    NoBids,
    /// A new bid must be above the current bid.
    BidNotAboveCurrent,
    /// The approval callback must come from an NFT contract, not from the signer.
    NotCrossContractCall,
    /// The token's owner must be the one who signed the approval.
    OwnerNotSigner,
    /// The seller's storage deposit does not cover one more sale.
    InsufficientStorage { paid: u128, sales: u128, rate: u128 },
    /// The approval message is not a valid description of a sale.
    InvalidSaleArgs,
    /// The seller already has more sales than the deposit pays for.
    MoreSalesThanStorage,
}

} // verus!
