use vstd::prelude::*;

use crate::contract::{contract_and_token_id, near_account, near_id, sale_key, Contract};
use crate::fees::{service_fee_calculate, spec_service_fee, NEAR};
use crate::laws::law_removal_keeps_storage_covered;
use crate::types::{Bid, MarketError, OfferOutcome, Purchase, Sale, Transfer};

verus! {

/// The payment back to whoever holds the bid `b`.
pub open spec fn refund_of(b: Bid) -> Transfer {
    Transfer { receiver_id: b.owner_id, amount: b.price }
}

/// The refund owed when the bid of `bids` in `ft` is replaced or dropped.
pub open spec fn refund_in(bids: Map<Seq<char>, Bid>, ft: Seq<char>) -> Option<Transfer> {
    if bids.contains_key(ft) {
        Some(refund_of(bids[ft]))
    } else {
        None
    }
}

/// `amount` tops the bid of `bids` in `ft`, or there is no such bid.
pub open spec fn tops_bid(bids: Map<Seq<char>, Bid>, ft: Seq<char>, amount: u128) -> bool {
    !bids.contains_key(ft) || amount > bids[ft].price
}

impl Contract {
    /// Takes down the caller's sale of token `token_id` of `nft_contract_id`
    /// (one yoctoNEAR attached), paying back the bid in `ft_token_id` if there is one.
    pub fn remove_sale(
        &mut self,
        predecessor: String,
        deposit: u128,
        nft_contract_id: String,
        token_id: String,
        ft_token_id: String,
    ) -> (r: Result<Option<Transfer>, MarketError>)
        requires
            old(self).wf(),
        ensures
            final(self).wf(),
            old(self).storage_covered() ==> final(self).storage_covered(),
            ({
                let k = sale_key(nft_contract_id@, token_id@);
                let s = old(self).sales@[k];
                if deposit != 1 {
                    r == Err::<Option<Transfer>, MarketError>(MarketError::RequiresOneYocto)
                        && *final(self) == *old(self)
                } else if !old(self).sales@.contains_key(k) {
                    r == Err::<Option<Transfer>, MarketError>(MarketError::NoSale) && *final(self)
                        == *old(self)
                } else if !old(self).by_nft_contract_id@.contains_key(nft_contract_id@) {
                    r == Err::<Option<Transfer>, MarketError>(MarketError::NoSaleByNftContractId)
                        && *final(self) == *old(self)
                } else if predecessor@ != s.owner_id@ {
                    r == Err::<Option<Transfer>, MarketError>(MarketError::NotSaleOwner)
                        && *final(self) == *old(self)
                } else {
                    &&& r == Ok::<Option<Transfer>, MarketError>(refund_in(s.bids@, ft_token_id@))
                    &&& final(self).sale_removed(*old(self), nft_contract_id@, token_id@)
                }
            }),
    {
        if deposit != 1 {
            return Err(MarketError::RequiresOneYocto);
        }
        let key = contract_and_token_id(&nft_contract_id, &token_id);
        let (owner, refund) = match self.sales.get(&key) {
            None => {
                return Err(MarketError::NoSale);
            },
            Some(sale) => {
                proof {
                    assert(self.sale_listed(key@));
                }
                let refund = match sale.bids.get(&ft_token_id) {
                    Some(bid) => Some(Transfer { receiver_id: bid.owner_id.clone(), amount: bid.price }),
                    None => None,
                };
                (sale.owner_id.clone(), refund)
            },
        };
        if !self.by_nft_contract_id.contains_key(&nft_contract_id) {
            return Err(MarketError::NoSaleByNftContractId);
        }
        if predecessor != owner {
            return Err(MarketError::NotSaleOwner);
        }
        let ghost pre = *self;
        let ghost c = nft_contract_id@;
        let ghost t = token_id@;
        let _sale = self.internal_remove_sale(nft_contract_id, token_id);
        proof {
            if pre.storage_covered() {
                assert(pre.sale_listed(sale_key(c, t)));
                law_removal_keeps_storage_covered(pre, *self, c, t);
            }
        }
        Ok(refund)
    }

    /// The caller, owner of the sale, sets its price in `ft_token_id`
    /// (one yoctoNEAR attached). The price must top the current bid in that
    /// token, and the market must accept the token.
    pub fn update_price(
        &mut self,
        predecessor: String,
        deposit: u128,
        nft_contract_id: String,
        token_id: String,
        ft_token_id: String,
        price: u128,
    ) -> (r: Result<(), MarketError>)
        requires
            old(self).wf(),
        ensures
            final(self).wf(),
            old(self).storage_covered() ==> final(self).storage_covered(),
            ({
                let k = sale_key(nft_contract_id@, token_id@);
                let s = old(self).sales@[k];
                if deposit != 1 {
                    r == Err::<(), MarketError>(MarketError::RequiresOneYocto) && *final(self)
                        == *old(self)
                } else if !old(self).sales@.contains_key(k) {
                    r == Err::<(), MarketError>(MarketError::NoSale) && *final(self) == *old(self)
                } else if predecessor@ != s.owner_id@ {
                    r == Err::<(), MarketError>(MarketError::NotSaleOwner) && *final(self) == *old(self)
                } else if s.bids@.contains_key(ft_token_id@) && price <= s.bids@[ft_token_id@].price {
                    r == Err::<(), MarketError>(MarketError::PriceNotAboveBid) && *final(self)
                        == *old(self)
                } else if !old(self).ft_token_ids@.contains(ft_token_id@) {
                    r == Err::<(), MarketError>(
                        MarketError::TokenNotSupported { ft_token_id: ft_token_id },
                    ) && *final(self) == *old(self)
                } else {
                    &&& r == Ok::<(), MarketError>(())
                    &&& final(self).sales@.contains_key(k)
                    &&& final(self).sales@.remove(k) == old(self).sales@.remove(k)
                    &&& final(self).sales@[k].same_but_conditions(s)
                    &&& final(self).sales@[k].sale_conditions@ == s.sale_conditions@.insert(
                        ft_token_id@,
                        price,
                    )
                    &&& final(self).same_settings(*old(self))
                    &&& final(self).by_owner_id == old(self).by_owner_id
                    &&& final(self).by_nft_contract_id == old(self).by_nft_contract_id
                }
            }),
    {
        if deposit != 1 {
            return Err(MarketError::RequiresOneYocto);
        }
        let key = contract_and_token_id(&nft_contract_id, &token_id);
        match self.sales.get(&key) {
            None => {
                return Err(MarketError::NoSale);
            },
            Some(sale) => {
                proof {
                    assert(self.sale_listed(key@));
                }
                if predecessor != sale.owner_id {
                    return Err(MarketError::NotSaleOwner);
                }
                match sale.bids.get(&ft_token_id) {
                    Some(bid) => {
                        if price <= bid.price {
                            return Err(MarketError::PriceNotAboveBid);
                        }
                    },
                    None => {},
                }
            },
        }
        if !self.ft_token_ids.contains(&ft_token_id) {
            return Err(MarketError::TokenNotSupported { ft_token_id });
        }
        let ghost pre = *self;
        let mut sale = match self.sales.remove(&key) {
            Some(s) => s,
            None => {
                proof {
                    assert(false);
                }
                return Err(MarketError::NoSale);
            },
        };
        sale.sale_conditions.insert(ft_token_id, price);
        self.sales.insert(key, sale);
        proof {
            assert(self.sales@.remove(key@) =~= pre.sales@.remove(key@));
            assert forall|k2: Seq<char>| #[trigger] self.sales@.contains_key(k2) implies self.sale_listed(
                k2,
            ) by {
                assert(pre.sale_listed(k2));
            }
        }
        Ok(())
    }

    /// Takes the sale of token `token_id` of `nft_contract_id` off the market
    /// and sets up its purchase by `buyer_id` for `price` in `ft_token_id`.
    pub fn process_purchase(
        &mut self,
        nft_contract_id: String,
        token_id: String,
        ft_token_id: String,
        price: u128,
        buyer_id: String,
    ) -> (r: Result<Purchase, MarketError>)
        requires
            old(self).wf(),
        ensures
            final(self).wf(),
            old(self).storage_covered() ==> final(self).storage_covered(),
            ({
                let k = sale_key(nft_contract_id@, token_id@);
                if !old(self).sales@.contains_key(k) {
                    r == Err::<Purchase, MarketError>(MarketError::NoSale) && *final(self) == *old(self)
                } else if !old(self).by_nft_contract_id@.contains_key(nft_contract_id@) {
                    r == Err::<Purchase, MarketError>(MarketError::NoSaleByNftContractId)
                        && *final(self) == *old(self)
                } else {
                    let s = old(self).sales@[k];
                    &&& r == Ok::<Purchase, MarketError>(
                        Purchase {
                            nft_contract_id,
                            token_id,
                            buyer_id,
                            approval_id: s.approval_id,
                            ft_token_id,
                            price,
                            sale: s,
                        },
                    )
                    &&& final(self).sale_removed(*old(self), nft_contract_id@, token_id@)
                }
            }),
    {
        let ghost pre = *self;
        let sale = self.internal_remove_sale(nft_contract_id.clone(), token_id.clone())?;
        proof {
            if pre.storage_covered() {
                assert(pre.sale_listed(sale_key(nft_contract_id@, token_id@)));
                law_removal_keeps_storage_covered(pre, *self, nft_contract_id@, token_id@);
            }
        }
        Ok(
            Purchase {
                nft_contract_id,
                token_id,
                buyer_id,
                approval_id: sale.approval_id,
                ft_token_id,
                price,
                sale,
            },
        )
    }

    /// Settles a purchase once the token has moved: the seller is paid
    /// `price` less the market's fee. Answers `1`.
    pub fn resolve_purchase(&self, ft_token_id: String, buyer_id: String, sale: Sale, price: u128) -> (r:
        Result<(u128, Transfer), MarketError>)
        ensures
            price * 25 > u128::MAX ==> r == Err::<(u128, Transfer), MarketError>(
                MarketError::ArithmeticOverflow,
            ),
            price * 25 <= u128::MAX ==> r == Ok::<(u128, Transfer), MarketError>(
                (
                    1u128,
                    Transfer {
                        receiver_id: sale.owner_id,
                        amount: (price - spec_service_fee(price)) as u128,
                    },
                ),
            ),
            r matches Ok((_, t)) ==> t.amount + spec_service_fee(price) == price,
            r matches Ok((_, t)) ==> t.amount <= price && (price - t.amount) * 1000 <= price * 25
                && price * 25 < (price - t.amount + 1) * 1000,
    {
        if price > u128::MAX / 25 {
            return Err(MarketError::ArithmeticOverflow);
        }
        let service_fee = service_fee_calculate(price);
        let amount = price - service_fee;
        Ok((1, Transfer { receiver_id: sale.owner_id, amount }))
    }

    /// Records `amount` from `buyer_id` as the bid in `ft_token_id` on `sale`,
    /// the market's copy of the sale stored under `contract_and_token_id`,
    /// and stores the updated sale. Bids are taken in NEAR only, and only
    /// above the current bid, which is then paid back; a bid that does not
    /// top the current one leaves everything as it was.
    pub fn add_bid(
        &mut self,
        contract_and_token_id: String,
        amount: u128,
        ft_token_id: String,
        buyer_id: String,
        sale: &mut Sale,
    ) -> (refund: Option<Transfer>)
        requires
            old(self).wf(),
            old(sale).wf(),
            old(self).sales@.contains_key(contract_and_token_id@),
            old(self).sales@[contract_and_token_id@].owner_id@ == old(sale).owner_id@,
            old(self).sales@[contract_and_token_id@].nft_contract_id@ == old(sale).nft_contract_id@,
            old(self).sales@[contract_and_token_id@].token_id@ == old(sale).token_id@,
        ensures
            final(self).wf(),
            old(self).storage_covered() ==> final(self).storage_covered(),
            final(sale).wf(),
            ft_token_id@ == near_id() && old(sale).bids@.contains_key(ft_token_id@)
                && amount <= old(sale).bids@[ft_token_id@].price ==> refund
                is None && *final(sale) == *old(sale) && *final(self) == *old(self),
            ft_token_id@ == near_id() && (!old(sale).bids@.contains_key(ft_token_id@)
                || amount > old(sale).bids@[ft_token_id@].price) ==> {
                let k = contract_and_token_id@;
                &&& refund == refund_in(old(sale).bids@, ft_token_id@)
                &&& final(sale).same_but_bids(*old(sale))
                &&& final(sale).bids@ == old(sale).bids@.insert(
                    ft_token_id@,
                    Bid { owner_id: buyer_id, price: amount },
                )
                &&& final(self).sales@.contains_key(k)
                &&& final(self).sales@.remove(k) == old(self).sales@.remove(k)
                &&& final(self).sales@[k].same_as(*final(sale))
                &&& final(self).same_settings(*old(self))
                &&& final(self).by_owner_id == old(self).by_owner_id
                &&& final(self).by_nft_contract_id == old(self).by_nft_contract_id
            },
            ft_token_id@ != near_id() ==> refund is None && *final(sale) == *old(sale) && *final(self) == *old(self),
    {
        let near = near_account();
        if ft_token_id != near {
            return None;
        }
        match sale.bids.get(&ft_token_id) {
            Some(current) => {
                if amount <= current.price {
                    return None;
                }
            },
            None => {},
        }
        let ghost pre = *self;
        let ghost k = contract_and_token_id@;
        let new_bid = Bid { owner_id: buyer_id, price: amount };
        let refund = match sale.bids.insert(ft_token_id, new_bid) {
            Some(last) => Some(Transfer { receiver_id: last.owner_id, amount: last.price }),
            None => None,
        };
        let stored = sale.duplicate();
        self.sales.insert(contract_and_token_id, stored);
        proof {
            assert(self.sales@.remove(k) =~= pre.sales@.remove(k));
            assert(pre.sale_listed(k));
            assert forall|k2: Seq<char>| #[trigger] self.sales@.contains_key(k2) implies self.sale_listed(
                k2,
            ) by {
                assert(pre.sale_listed(k2));
            }
        }
        refund
    }

    /// The caller offers the attached `deposit` for the sale of token
    /// `token_id` of `nft_contract_id`, in NEAR. A deposit equal to the
    /// asking price (in whole NEAR) buys the token; a smaller one becomes the
    /// bid if it tops the current bid, and is refused if it does not; for an
    /// auction, or a larger deposit, nothing happens.
    pub fn offer(&mut self, predecessor: String, deposit: u128, nft_contract_id: String, token_id: String) -> (r:
        Result<OfferOutcome, MarketError>)
        requires
            old(self).wf(),
        ensures
            final(self).wf(),
            old(self).storage_covered() ==> final(self).storage_covered(),
            ({
                let k = sale_key(nft_contract_id@, token_id@);
                let s = old(self).sales@[k];
                let target = s.sale_conditions@[near_id()] * NEAR;
                if !old(self).sales@.contains_key(k) {
                    r == Err::<OfferOutcome, MarketError>(MarketError::NoSale) && *final(self)
                        == *old(self)
                } else if s.owner_id@ == predecessor@ {
                    r == Err::<OfferOutcome, MarketError>(MarketError::OwnSale) && *final(self)
                        == *old(self)
                } else if !s.sale_conditions@.contains_key(near_id()) {
                    r == Err::<OfferOutcome, MarketError>(MarketError::NotForSaleInNear) && *final(self) == *old(self)
                } else if deposit == 0 {
                    r == Err::<OfferOutcome, MarketError>(MarketError::ZeroDeposit) && *final(self)
                        == *old(self)
                } else if s.is_auction {
                    r == Ok::<OfferOutcome, MarketError>(OfferOutcome::Kept) && *final(self)
                        == *old(self)
                } else if target > u128::MAX {
                    r == Err::<OfferOutcome, MarketError>(MarketError::ArithmeticOverflow)
                        && *final(self) == *old(self)
                } else if deposit == target {
                    if !old(self).by_nft_contract_id@.contains_key(nft_contract_id@) {
                        r == Err::<OfferOutcome, MarketError>(MarketError::NoSaleByNftContractId)
                            && *final(self) == *old(self)
                    } else {
                        &&& r matches Ok(OfferOutcome::Purchased(p)) && p.nft_contract_id
                            == nft_contract_id && p.token_id == token_id && p.buyer_id == predecessor
                            && p.approval_id == s.approval_id && p.ft_token_id@ == near_id()
                            && p.price == deposit && p.sale == s
                        &&& final(self).sale_removed(*old(self), nft_contract_id@, token_id@)
                    }
                } else if deposit < target && s.bids@.contains_key(near_id()) && deposit
                    <= s.bids@[near_id()].price {
                    r == Err::<OfferOutcome, MarketError>(MarketError::BidNotAboveCurrent)
                        && *final(self) == *old(self)
                } else if deposit < target {
                    &&& r == Ok::<OfferOutcome, MarketError>(
                        OfferOutcome::BidPlaced { refund: refund_in(s.bids@, near_id()) },
                    )
                    &&& final(self).sales@.contains_key(k)
                    &&& final(self).sales@.remove(k) == old(self).sales@.remove(k)
                    &&& final(self).sales@[k].same_but_bids(s)
                    &&& final(self).sales@[k].bids@ == s.bids@.insert(
                        near_id(),
                        Bid { owner_id: predecessor, price: deposit },
                    )
                    &&& final(self).same_settings(*old(self))
                    &&& final(self).by_owner_id == old(self).by_owner_id
                    &&& final(self).by_nft_contract_id == old(self).by_nft_contract_id
                } else {
                    r == Ok::<OfferOutcome, MarketError>(OfferOutcome::Kept) && *final(self)
                        == *old(self)
                }
            }),
    {
        let key = contract_and_token_id(&nft_contract_id, &token_id);
        let ft_token_id = near_account();
        let (price, is_auction) = match self.sales.get(&key) {
            None => {
                return Err(MarketError::NoSale);
            },
            Some(sale) => {
                proof {
                    assert(self.sale_listed(key@));
                }
                if sale.owner_id == predecessor {
                    return Err(MarketError::OwnSale);
                }
                let price: u128 = match sale.sale_conditions.get(&ft_token_id) {
                    Some(p) => *p,
                    None => {
                        return Err(MarketError::NotForSaleInNear);
                    },
                };
                (price, sale.is_auction)
            },
        };
        if deposit == 0 {
            return Err(MarketError::ZeroDeposit);
        }
        if is_auction {
            return Ok(OfferOutcome::Kept);
        }
        let target: u128 = match price.checked_mul(NEAR) {
            Some(t) => t,
            None => {
                return Err(MarketError::ArithmeticOverflow);
            },
        };
        if deposit == target {
            let purchase = self.process_purchase(
                nft_contract_id,
                token_id,
                ft_token_id,
                deposit,
                predecessor,
            )?;
            return Ok(OfferOutcome::Purchased(purchase));
        }
        if deposit < target {
            let mut sale = match self.sales.get(&key) {
                Some(s) => s.duplicate(),
                None => {
                    proof {
                        assert(false);
                    }
                    return Err(MarketError::NoSale);
                },
            };
            match sale.bids.get(&ft_token_id) {
                Some(current) => {
                    if deposit <= current.price {
                        return Err(MarketError::BidNotAboveCurrent);
                    }
                },
                None => {},
            }
            let refund = self.add_bid(key, deposit, ft_token_id, predecessor, &mut sale);
            return Ok(OfferOutcome::BidPlaced { refund });
        }
        Ok(OfferOutcome::Kept)
    }

    /// The caller, owner of the sale, accepts its bid in `ft_token_id`: the
    /// bid is taken off the sale and the token is sold to the bidder at the bid's price.
    pub fn accept_offer(
        &mut self,
        predecessor: String,
        nft_contract_id: String,
        token_id: String,
        ft_token_id: String,
    ) -> (r: Result<Purchase, MarketError>)
        requires
            old(self).wf(),
        ensures
            final(self).wf(),
            old(self).storage_covered() ==> final(self).storage_covered(),
            ({
                let k = sale_key(nft_contract_id@, token_id@);
                let s = old(self).sales@[k];
                let bid = s.bids@[ft_token_id@];
                if !old(self).sales@.contains_key(k) {
                    r == Err::<Purchase, MarketError>(MarketError::NoSale) && *final(self) == *old(self)
                } else if !s.bids@.contains_key(ft_token_id@) {
                    r == Err::<Purchase, MarketError>(MarketError::NoBids) && *final(self) == *old(self)
                } else if predecessor@ != s.owner_id@ {
                    r == Err::<Purchase, MarketError>(MarketError::NotSaleOwner) && *final(self)
                        == *old(self)
                } else if !old(self).by_nft_contract_id@.contains_key(nft_contract_id@) {
                    r == Err::<Purchase, MarketError>(MarketError::NoSaleByNftContractId)
                        && *final(self) == *old(self)
                } else {
                    &&& r matches Ok(p) && p.nft_contract_id == nft_contract_id && p.token_id
                        == token_id && p.buyer_id == bid.owner_id && p.approval_id == s.approval_id
                        && p.ft_token_id == ft_token_id && p.price == bid.price
                        && p.sale.same_but_bids(s) && p.sale.bids@ == s.bids@.remove(ft_token_id@)
                    &&& final(self).sale_removed(*old(self), nft_contract_id@, token_id@)
                }
            }),
    {
        let key = contract_and_token_id(&nft_contract_id, &token_id);
        match self.sales.get(&key) {
            None => {
                return Err(MarketError::NoSale);
            },
            Some(sale) => {
                proof {
                    assert(self.sale_listed(key@));
                }
                if !sale.bids.contains_key(&ft_token_id) {
                    return Err(MarketError::NoBids);
                }
                if predecessor != sale.owner_id {
                    return Err(MarketError::NotSaleOwner);
                }
            },
        }
        if !self.by_nft_contract_id.contains_key(&nft_contract_id) {
            return Err(MarketError::NoSaleByNftContractId);
        }
        let ghost pre = *self;
        let ghost k = key@;
        let mut sale = match self.sales.remove(&key) {
            Some(s) => s,
            None => {
                proof {
                    assert(false);
                }
                return Err(MarketError::NoSale);
            },
        };
        let bid = match sale.bids.remove(&ft_token_id) {
            Some(b) => b,
            None => {
                proof {
                    assert(false);
                }
                return Err(MarketError::NoBids);
            },
        };
        self.sales.insert(key, sale);
        let ghost mid = *self;
        proof {
            assert(self.sales@.remove(k) =~= pre.sales@.remove(k));
            assert forall|k2: Seq<char>| #[trigger] self.sales@.contains_key(k2) implies self.sale_listed(
                k2,
            ) by {
                assert(pre.sale_listed(k2));
            }
        }
        let purchase = self.process_purchase(
            nft_contract_id,
            token_id,
            ft_token_id,
            bid.price,
            bid.owner_id,
        );
        proof {
            assert(mid.sales@.remove(k) =~= pre.sales@.remove(k));
        }
        purchase
    }
}

} // verus!
