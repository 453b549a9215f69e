//! A marketplace for NEAR non-fungible tokens: sellers list tokens for sale,
//! buyers bid or buy, and the market keeps every sale indexed by its owner
//! and by its NFT contract. The state machine is verified; the blockchain
//! environment (callers, deposits, storage, promises) stays outside.

mod contract;
mod fees;
mod internal;
mod laws;
mod nft_callbacks;
mod sale;
mod str_map;
mod types;

pub use contract::{contract_and_token_id, near_account, Contract};
pub use fees::{service_fee_calculate, storage_per_sale};
pub use laws::{
    law_accepted_tokens_only_grow, law_list_then_unlist, law_listed_sale_indexed_by_contract,
    law_listing_keeps_storage_covered, law_removal_keeps_storage_covered,
    law_fee_is_two_and_a_half_percent, law_a_higher_offer_tops_the_bid,
    law_listing_keeps_the_terms, law_sales_count_is_the_owner_index,
};
pub use nft_callbacks::NonFungibleTokenApprovalsReceiver;
pub use str_map::{StrMap, StrSet};
pub use types::{
    Bid, MarketError, OfferOutcome, Purchase, PurchaseArgs, Sale, SaleArgs, StorageBalanceBounds,
    StorageKey, Transfer,
};
