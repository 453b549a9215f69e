use vstd::prelude::*;

use crate::contract::{contract_and_token_id, index_view, sale_key, Contract};
use crate::str_map::{swap_removed, StrSet};
use crate::types::{MarketError, Sale};

verus! {

/// The index `m` once `x` is taken out of the set of `o`; a set left empty is dropped.
pub open spec fn index_removed(m: Map<Seq<char>, Seq<Seq<char>>>, o: Seq<char>, x: Seq<char>) -> Map<
    Seq<char>,
    Seq<Seq<char>>,
> {
    let rest = swap_removed(m[o], x);
    if rest.len() == 0 {
        m.remove(o)
    } else {
        m.insert(o, rest)
    }
}

/// The index `m` once `x` is added to the set of `o` (made if missing).
pub open spec fn index_added(m: Map<Seq<char>, Seq<Seq<char>>>, o: Seq<char>, x: Seq<char>) -> Map<
    Seq<char>,
    Seq<Seq<char>>,
> {
    let before = if m.contains_key(o) {
        m[o]
    } else {
        Seq::<Seq<char>>::empty()
    };
    m.insert(
        o,
        if before.contains(x) {
            before
        } else {
            before.push(x)
        },
    )
}

impl Contract {
    /// Everything but the sales and their two indexes is as in `other`.
    pub open spec fn same_settings(self, other: Self) -> bool {
        &&& self.owner_id == other.owner_id
        &&& self.ft_token_ids == other.ft_token_ids
        &&& self.storage_deposits == other.storage_deposits
    }

    /// The state once the sale under `sale_key(c, t)` is taken out of the
    /// sales and out of both indexes: the key leaves its owner's set and the
    /// token leaves its contract's set, and a set left empty is dropped.
    pub open spec fn sale_removed(self, old: Self, c: Seq<char>, t: Seq<char>) -> bool {
        let k = sale_key(c, t);
        let s = old.sales@[k];
        &&& self.sales@ == old.sales@.remove(k)
        &&& index_view(self.by_owner_id@) == index_removed(
            index_view(old.by_owner_id@),
            s.owner_id@,
            k,
        )
        &&& index_view(self.by_nft_contract_id@) == index_removed(
            index_view(old.by_nft_contract_id@),
            c,
            t,
        )
        &&& self.same_settings(old)
        &&& !(self.by_owner_id@.contains_key(s.owner_id@) && self.by_owner_id@[s.owner_id@]@.contains(k))
        &&& self.by_owner_id@.contains_key(s.owner_id@) ==> self.by_owner_id@[s.owner_id@]@.to_set()
            == old.by_owner_id@[s.owner_id@]@.to_set().remove(k)
        &&& !(self.by_nft_contract_id@.contains_key(c) && self.by_nft_contract_id@[c]@.contains(t))
        &&& self.by_nft_contract_id@.contains_key(c) ==> self.by_nft_contract_id@[c]@.to_set()
            == old.by_nft_contract_id@[c]@.to_set().remove(t)
    }

    /// Takes the sale of token `token_id` of `nft_contract_id` off the
    /// market and out of both indexes, and hands it back.
    pub(crate) fn internal_remove_sale(&mut self, nft_contract_id: String, token_id: String) -> (r:
        Result<Sale, MarketError>)
        requires
            old(self).wf(),
        ensures
            final(self).wf(),
            ({
                let k = sale_key(nft_contract_id@, token_id@);
                if !old(self).sales@.contains_key(k) {
                    r == Err::<Sale, MarketError>(MarketError::NoSale) && *final(self) == *old(
                        self,
                    )
                } else if !old(self).by_nft_contract_id@.contains_key(nft_contract_id@) {
                    r == Err::<Sale, MarketError>(MarketError::NoSaleByNftContractId)
                        && *final(self) == *old(self)
                } else {
                    &&& r == Ok::<Sale, MarketError>(old(self).sales@[k])
                    &&& final(self).sale_removed(*old(self), nft_contract_id@, token_id@)
                }
            }),
    {
        let key = contract_and_token_id(&nft_contract_id, &token_id);
        if !self.sales.contains_key(&key) {
            return Err(MarketError::NoSale);
        }
        if !self.by_nft_contract_id.contains_key(&nft_contract_id) {
            return Err(MarketError::NoSaleByNftContractId);
        }
        let ghost pre = *self;
        let ghost k = key@;
        let ghost c = nft_contract_id@;
        let ghost t = token_id@;
        proof {
            assert(pre.sale_listed(k));
        }
        let sale = match self.sales.remove(&key) {
            Some(s) => s,
            None => {
                proof {
                    assert(false);
                }
                return Err(MarketError::NoSale);
            },
        };
        let ghost o = sale.owner_id@;
        let mut by_owner_id: StrSet = match self.by_owner_id.remove(&sale.owner_id) {
            Some(s) => s,
            None => {
                proof {
                    assert(false);
                }
                return Err(MarketError::NoSaleByOwnerId);
            },
        };
        by_owner_id.remove(&key);
        let ghost owner_set = by_owner_id;
        if !by_owner_id.is_empty() {
            self.by_owner_id.insert(sale.owner_id.clone(), by_owner_id);
        }
        let mut by_nft_contract_id: StrSet = match self.by_nft_contract_id.remove(&nft_contract_id) {
            Some(s) => s,
            None => {
                proof {
                    assert(false);
                }
                return Err(MarketError::NoSaleByNftContractId);
            },
        };
        by_nft_contract_id.remove(&token_id);
        let ghost nft_set = by_nft_contract_id;
        if !by_nft_contract_id.is_empty() {
            self.by_nft_contract_id.insert(nft_contract_id, by_nft_contract_id);
        }
        proof {
            lemma_index_removed_view(pre.by_owner_id@, self.by_owner_id@, o, k, owner_set);
            lemma_index_removed_view(pre.by_nft_contract_id@, self.by_nft_contract_id@, c, t, nft_set);
            assert forall|k2: Seq<char>| #[trigger] self.sales@.contains_key(k2) implies self.sale_listed(
                k2,
            ) by {
                assert(pre.sales@.contains_key(k2));
                assert(pre.sale_listed(k2));
                let s2 = pre.sales@[k2];
                assert(k2 != k);
                if s2.owner_id@ == o {
                    assert(pre.by_owner_id@[o]@.contains(k2));
                } else {
                    assert(self.by_owner_id@.contains_key(s2.owner_id@));
                }
                if s2.nft_contract_id@ == c {
                    assert(s2.token_id@ != t);
                    assert(pre.by_nft_contract_id@[c]@.contains(s2.token_id@));
                } else {
                    assert(self.by_nft_contract_id@.contains_key(s2.nft_contract_id@));
                }
            }
        }
        Ok(sale)
    }
}

/// After an index set has `x` removed (and is dropped if emptied), the view
/// of the index is `index_removed`, and the remaining sets stay well formed.
proof fn lemma_index_removed_view(
    before: Map<Seq<char>, StrSet>,
    after: Map<Seq<char>, StrSet>,
    o: Seq<char>,
    x: Seq<char>,
    s: StrSet,
)
    requires
        before.contains_key(o),
        forall|p: Seq<char>| #[trigger] before.contains_key(p) ==> before[p].wf() && before[p]@.len() > 0,
        s.wf(),
        s@ == swap_removed(before[o]@, x),
        s@.to_set() == before[o]@.to_set().remove(x),
        after == if s@.len() == 0 {
            before.remove(o)
        } else {
            before.remove(o).insert(o, s)
        },
    ensures
        index_view(after) == index_removed(index_view(before), o, x),
        forall|p: Seq<char>| #[trigger] after.contains_key(p) ==> after[p].wf() && after[p]@.len() > 0,
        forall|p: Seq<char>| p != o ==> #[trigger] after.contains_key(p) == before.contains_key(p),
        forall|p: Seq<char>| p != o && #[trigger] after.contains_key(p) ==> after[p] == before[p],
        forall|y: Seq<char>|
            y != x && #[trigger] before[o]@.contains(y) ==> after.contains_key(o) && after[o]@.contains(
                y,
            ),
        !(after.contains_key(o) && after[o]@.contains(x)),
        after.contains_key(o) ==> after[o]@.to_set() == before[o]@.to_set().remove(x),
{
    if after.contains_key(o) {
        assert(after[o] == s);
        if s@.contains(x) {
            assert(s@.to_set().contains(x));
        }
    }
    assert(index_view(after) =~= index_removed(index_view(before), o, x));
    assert forall|y: Seq<char>| y != x && #[trigger] before[o]@.contains(y) implies after.contains_key(
        o,
    ) && after[o]@.contains(y) by {
        assert(before[o]@.to_set().contains(y));
        assert(s@.to_set().contains(y));
    }
}

} // verus!
