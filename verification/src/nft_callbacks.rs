use vstd::prelude::*;

use crate::contract::{balance_of, contract_and_token_id, index_view, sale_key, Contract};
use crate::fees::{spec_storage_per_sale, storage_per_sale};
use crate::internal::index_added;
use crate::laws::law_listing_keeps_storage_covered;
use crate::str_map::{StrMap, StrSet};
use crate::types::{MarketError, Sale, SaleArgs};

verus! {

/// The receiving side of an NFT contract's `nft_approve`: the NFT contract
/// calls it once the owner has approved this market for a token.
pub trait NonFungibleTokenApprovalsReceiver {
    /// The receiver is in a state it can work from.
    spec fn receiver_wf(&self) -> bool;

    /// `predecessor` is the NFT contract making the call, `signer` the
    /// account that signed the transaction, `block_timestamp` the block's
    /// time in nanoseconds; `sale_args` is the approval message read as
    /// `SaleArgs`, `None` when it does not read as one.
    fn nft_on_approve(
        &mut self,
        predecessor: String,
        signer: String,
        block_timestamp: u64,
        token_id: String,
        owner_id: String,
        approval_id: u64,
        sale_args: Option<SaleArgs>,
    ) -> (r: Result<(), MarketError>)
        requires
            old(self).receiver_wf(),
            sale_args matches Some(a) ==> a.wf(),
        ensures
            final(self).receiver_wf(),
    ;
}

/// The value of an optional flag, `false` when it is not given.
pub open spec fn flag(b: Option<bool>) -> bool {
    match b {
        Some(b) => b,
        None => false,
    }
}

/// `s` is the sale that an approval lists: token `token_id` of `nft_contract_id`,
/// owned by `owner_id`, on the terms of `args`, with no bids yet, created at
/// `block_timestamp` (in nanoseconds) counted in milliseconds.
pub open spec fn listed_from(
    s: Sale,
    owner_id: String,
    approval_id: u64,
    nft_contract_id: Seq<char>,
    token_id: String,
    args: SaleArgs,
    block_timestamp: u64,
) -> bool {
    &&& s.owner_id == owner_id
    &&& s.approval_id == approval_id
    &&& s.nft_contract_id@ == nft_contract_id
    &&& s.token_id == token_id
    &&& s.sale_conditions == args.sale_conditions
    &&& s.bids.wf()
    &&& s.bids@ == Map::<Seq<char>, crate::types::Bid>::empty()
    &&& s.created_at == block_timestamp / 1_000_000
    &&& s.is_auction == flag(args.is_auction)
    &&& s.is_royalties == flag(args.is_royalties)
    &&& match args.royalties {
        Some(r) => s.royalties == Some(r),
        None => s.royalties matches Some(r) && r.wf() && r@ == Map::<Seq<char>, u8>::empty(),
    }
}

/// Adding to an index keeps every string that was in it.
proof fn lemma_index_added_keeps(
    before: Map<Seq<char>, StrSet>,
    after: Map<Seq<char>, StrSet>,
    o: Seq<char>,
    x: Seq<char>,
    s: StrSet,
)
    requires
        forall|p: Seq<char>| #[trigger] before.contains_key(p) ==> before[p].wf() && before[p]@.len() > 0,
        s.wf(),
        s@ == (if before.contains_key(o) {
            let b = before[o]@;
            if b.contains(x) {
                b
            } else {
                b.push(x)
            }
        } else {
            seq![x]
        }),
        after == before.insert(o, s),
    ensures
        index_view(after) == index_added(index_view(before), o, x),
        forall|p: Seq<char>| #[trigger] after.contains_key(p) ==> after[p].wf() && after[p]@.len() > 0,
        after.contains_key(o) && after[o]@.contains(x),
        forall|p: Seq<char>, y: Seq<char>|
            before.contains_key(p) && #[trigger] before[p]@.contains(y) ==> after.contains_key(p)
                && after[p]@.contains(y),
{
    assert(index_view(after) =~= index_added(index_view(before), o, x)) by {
        if !before.contains_key(o) {
            assert(seq![x] =~= Seq::<Seq<char>>::empty().push(x));
        }
    }
    if before.contains_key(o) && !before[o]@.contains(x) {
        assert(s@[before[o]@.len() as int] == x);
    } else if !before.contains_key(o) {
        assert(s@[0] == x);
    }
    assert forall|p: Seq<char>, y: Seq<char>|
        before.contains_key(p) && #[trigger] before[p]@.contains(y) implies after.contains_key(p)
        && after[p]@.contains(y) by {
        if p == o {
            let i = choose|i: int| 0 <= i < before[o]@.len() && before[o]@[i] == y;
            assert(after[o]@[i] == y);
        }
    }
}

impl Contract {
    /// `self` is `old` with the sale under `k` listed as `s`, indexed under
    /// its owner and its NFT contract.
    pub open spec fn sale_added(self, old: Self, k: Seq<char>, s: Sale) -> bool {
        &&& self.sales@ == old.sales@.insert(k, s)
        &&& index_view(self.by_owner_id@) == index_added(
            index_view(old.by_owner_id@),
            s.owner_id@,
            k,
        )
        &&& index_view(self.by_nft_contract_id@) == index_added(
            index_view(old.by_nft_contract_id@),
            s.nft_contract_id@,
            s.token_id@,
        )
        &&& self.same_settings(old)
    }

    /// Adds `x` to the set of `o` in `index`, making the set if needed.
    fn index_insert(index: &mut StrMap<StrSet>, o: String, x: String)
        requires
            old(index).wf(),
            forall|p: Seq<char>| #[trigger] old(index)@.contains_key(p) ==> old(index)@[p].wf()
                && old(index)@[p]@.len() > 0,
        ensures
            final(index).wf(),
            index_view(final(index)@) == index_added(index_view(old(index)@), o@, x@),
            forall|p: Seq<char>| #[trigger] final(index)@.contains_key(p) ==> final(index)@[p].wf()
                && final(index)@[p]@.len() > 0,
            final(index)@.contains_key(o@) && final(index)@[o@]@.contains(x@),
            forall|p: Seq<char>, y: Seq<char>|
                old(index)@.contains_key(p) && #[trigger] old(index)@[p]@.contains(y)
                    ==> final(index)@.contains_key(p) && final(index)@[p]@.contains(y),
    {
        let ghost before = index@;
        let ghost ov = o@;
        let ghost xv = x@;
        let mut set = match index.remove(&o) {
            Some(s) => s,
            None => StrSet::new(),
        };
        set.insert(x);
        proof {
            if !before.contains_key(ov) {
                assert(set@ =~= seq![xv]);
            }
        }
        let ghost s = set;
        index.insert(o, set);
        proof {
            assert(index@ =~= before.insert(ov, s));
            lemma_index_added_keeps(before, index@, ov, xv, s);
        }
    }
}

impl NonFungibleTokenApprovalsReceiver for Contract {
    open spec fn receiver_wf(&self) -> bool {
        self.wf()
    }

    /// Lists token `token_id` of the calling NFT contract for sale on the
    /// terms of `sale_args`. The owner must have signed the approval, must
    /// have deposited storage for one more sale, and may ask only for tokens
    /// the market accepts.
    fn nft_on_approve(
        &mut self,
        predecessor: String,
        signer: String,
        block_timestamp: u64,
        token_id: String,
        owner_id: String,
        approval_id: u64,
        sale_args: Option<SaleArgs>,
    ) -> (r: Result<(), MarketError>)
        ensures
            final(self).wf(),
            old(self).storage_covered() ==> final(self).storage_covered(),
            ({
                let paid = balance_of(old(self).storage_deposits@, signer@);
                let count = old(self).sales_count(signer@);
                let required = (count + 1) * spec_storage_per_sale();
                if predecessor@ == signer@ {
                    r == Err::<(), MarketError>(MarketError::NotCrossContractCall) && *final(self)
                        == *old(self)
                } else if owner_id@ != signer@ {
                    r == Err::<(), MarketError>(MarketError::OwnerNotSigner) && *final(self)
                        == *old(self)
                } else if count + 1 > u64::MAX || required > u128::MAX {
                    r == Err::<(), MarketError>(MarketError::ArithmeticOverflow) && *final(self)
                        == *old(self)
                } else if paid < required {
                    r == Err::<(), MarketError>(
                        MarketError::InsufficientStorage {
                            paid,
                            sales: (required / (spec_storage_per_sale() as int)) as u128,
                            rate: spec_storage_per_sale(),
                        },
                    ) && *final(self) == *old(self)
                } else if sale_args is None {
                    r == Err::<(), MarketError>(MarketError::InvalidSaleArgs) && *final(self)
                        == *old(self)
                } else if exists|ft: Seq<char>|
                    #[trigger] sale_args->0.sale_conditions@.contains_key(ft)
                        && !old(self).ft_token_ids@.contains(ft) {
                    &&& r matches Err(MarketError::TokenNotSupported { ft_token_id })
                        && sale_args->0.sale_conditions@.contains_key(ft_token_id@)
                        && !old(self).ft_token_ids@.contains(ft_token_id@)
                    &&& *final(self) == *old(self)
                } else {
                    let k = sale_key(predecessor@, token_id@);
                    &&& r == Ok::<(), MarketError>(())
                    &&& final(self).sale_added(*old(self), k, final(self).sales@[k])
                    &&& listed_from(
                        final(self).sales@[k],
                        owner_id,
                        approval_id,
                        predecessor@,
                        token_id,
                        sale_args->0,
                        block_timestamp,
                    )
                }
            }),
    {
        let nft_contract_id = predecessor;
        if nft_contract_id == signer {
            return Err(MarketError::NotCrossContractCall);
        }
        if owner_id != signer {
            return Err(MarketError::OwnerNotSigner);
        }
        let storage_amount = self.storage_amount();
        let owner_paid_storage = self.storage_balance_of(signer.clone());
        let supply = self.get_supply_by_owner_id(&signer);
        if supply == u64::MAX {
            return Err(MarketError::ArithmeticOverflow);
        }
        let signer_storage_required: u128 = match ((supply + 1) as u128).checked_mul(storage_amount) {
            Some(v) => v,
            None => {
                return Err(MarketError::ArithmeticOverflow);
            },
        };
        if owner_paid_storage < signer_storage_required {
            return Err(
                MarketError::InsufficientStorage {
                    paid: owner_paid_storage,
                    sales: signer_storage_required / storage_per_sale(),
                    rate: storage_per_sale(),
                },
            );
        }
        let args = match sale_args {
            Some(a) => a,
            None => {
                return Err(MarketError::InvalidSaleArgs);
            },
        };
        let conditions = args.sale_conditions.entries();
        let n = conditions.len();
        let mut i: usize = 0;
        #[verifier::loop_isolation(false)]
        while i < n
            invariant
                n == conditions@.len(),
                i <= n,
                *self == *old(self),
                self.wf(),
                self.ft_token_ids.wf(),
                forall|j: int| 0 <= j < i ==> self.ft_token_ids@.contains(#[trigger] conditions@[j].0@),
            decreases n - i,
        {
            if !self.ft_token_ids.contains(&conditions[i].0) {
                proof {
                    assert(args.sale_conditions@.contains_key(conditions@[i as int].0@));
                }
                return Err(MarketError::TokenNotSupported { ft_token_id: conditions[i].0.clone() });
            }
            i = i + 1;
        }
        proof {
            assert forall|ft: Seq<char>| #[trigger]
                args.sale_conditions@.contains_key(ft) implies self.ft_token_ids@.contains(ft) by {
                let j = choose|j: int| #[trigger] crate::str_map::key_at(conditions@, j, ft);
                assert(self.ft_token_ids@.contains(conditions@[j].0@));
            }
        }
        proof {
            let sa = supply as int;
            let ra = storage_amount as int;
            assert((sa + 1) * ra == sa * ra + ra) by (nonlinear_arith);
            assert(0 <= sa * ra) by (nonlinear_arith)
                requires
                    0 <= sa,
                    0 <= ra,
            ;
        }
        let owner_occupied_storage: u128 = (supply as u128) * storage_amount;
        if owner_paid_storage <= owner_occupied_storage {
            return Err(MarketError::MoreSalesThanStorage);
        }
        let contract_and_token_id = contract_and_token_id(&nft_contract_id, &token_id);
        let ghost pre = *self;
        let ghost k = contract_and_token_id@;
        let royalties = match args.royalties {
            Some(r) => r,
            None => StrMap::new(),
        };
        let sale = Sale {
            owner_id: owner_id.clone(),
            approval_id,
            nft_contract_id: nft_contract_id.clone(),
            token_id: token_id.clone(),
            sale_conditions: args.sale_conditions,
            bids: StrMap::new(),
            created_at: block_timestamp / 1_000_000,
            is_auction: match args.is_auction {
                Some(b) => b,
                None => false,
            },
            is_royalties: match args.is_royalties {
                Some(b) => b,
                None => false,
            },
            royalties: Some(royalties),
        };
        let ghost new_sale = sale;
        self.sales.insert(contract_and_token_id.clone(), sale);
        Self::index_insert(&mut self.by_owner_id, owner_id, contract_and_token_id);
        Self::index_insert(&mut self.by_nft_contract_id, nft_contract_id, token_id);
        proof {
            assert forall|k2: Seq<char>| #[trigger] self.sales@.contains_key(k2) implies self.sale_listed(
                k2,
            ) by {
                if k2 == k {
                    assert(self.sales@[k2] == new_sale);
                } else {
                    assert(pre.sale_listed(k2));
                    let s2 = pre.sales@[k2];
                    assert(pre.by_owner_id@[s2.owner_id@]@.contains(k2));
                    assert(pre.by_nft_contract_id@[s2.nft_contract_id@]@.contains(s2.token_id@));
                }
            }
            assert(self.sale_added(pre, k, new_sale));
            if pre.storage_covered() {
                law_listing_keeps_storage_covered(pre, *self, k, new_sale);
            }
        }
        Ok(())
    }
}

} // verus!
