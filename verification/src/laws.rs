use vstd::prelude::*;

use crate::contract::{balance_of, index_view, insert_all, sale_key, Contract};
use crate::fees::{spec_service_fee, spec_storage_per_sale};
use crate::nft_callbacks::listed_from;
use crate::sale::tops_bid;
use crate::str_map::{lemma_str_map_finite, swap_removed, StrMap};
use crate::internal::{index_added, index_removed};
use crate::types::{Bid, Sale, SaleArgs};

verus! {

/// The string holds no `|`, as no NEAR account id does.
pub open spec fn no_bar(s: Seq<char>) -> bool {
    !s.contains('|')
}

/// Once NFT contract ids hold no `|`, a sale key names one contract and one token.
proof fn lemma_sale_key_injective(c1: Seq<char>, t1: Seq<char>, c2: Seq<char>, t2: Seq<char>)
    requires
        no_bar(c1),
        no_bar(c2),
        sale_key(c1, t1) == sale_key(c2, t2),
    ensures
        c1 == c2,
        t1 == t2,
{
    let k1 = sale_key(c1, t1);
    let k2 = sale_key(c2, t2);
    let n1 = c1.len() as int;
    let n2 = c2.len() as int;
    if n1 < n2 {
        assert(k1[n1] == '|');
        assert(k2[n1] == c2[n1]);
        assert(c2.contains(c2[n1]));
    } else if n2 < n1 {
        assert(k2[n2] == '|');
        assert(k1[n2] == c1[n2]);
        assert(c1.contains(c1[n2]));
    } else {
        assert forall|i: int| 0 <= i < n1 implies c1[i] == c2[i] by {
            assert(k1[i] == c1[i]);
            assert(k2[i] == c2[i]);
        }
        assert(c1 =~= c2);
        assert(k1.len() == n1 + 2 + t1.len());
        assert(k2.len() == n2 + 2 + t2.len());
        assert(t1.len() == t2.len());
        assert forall|i: int| 0 <= i < t1.len() implies t1[i] == t2[i] by {
            assert(k1[n1 + 2 + i] == t1[i]);
            assert(k2[n1 + 2 + i] == t2[i]);
        }
        assert(t1 =~= t2);
    }
}

/// While NFT contract ids hold no `|` (as no account id does), the sale of
/// token `t` of contract `c` is the sale of that very token and is indexed
/// under `c`: taking it down never fails on the contract index.
pub proof fn law_listed_sale_indexed_by_contract(m: Contract, c: Seq<char>, t: Seq<char>)
    requires
        m.wf(),
        no_bar(c),
        forall|k: Seq<char>| #[trigger] m.sales@.contains_key(k) ==> no_bar(m.sales@[k].nft_contract_id@),
        m.sales@.contains_key(sale_key(c, t)),
    ensures
        m.sales@[sale_key(c, t)].nft_contract_id@ == c,
        m.sales@[sale_key(c, t)].token_id@ == t,
        m.by_nft_contract_id@.contains_key(c),
        m.by_nft_contract_id@[c]@.contains(t),
{
    let k = sale_key(c, t);
    assert(m.sale_listed(k));
    let s = m.sales@[k];
    lemma_sale_key_injective(c, t, s.nft_contract_id@, s.token_id@);
}

/// Adding `x` to the set of `o` and taking it out again gives the index back,
/// when `x` was not in that set and the index keeps no empty set.
proof fn lemma_index_add_then_remove(m: Map<Seq<char>, Seq<Seq<char>>>, o: Seq<char>, x: Seq<char>)
    requires
        !(m.contains_key(o) && m[o].contains(x)),
        forall|p: Seq<char>| #[trigger] m.contains_key(p) ==> m[p].len() > 0,
    ensures
        index_removed(index_added(m, o, x), o, x) == m,
{
    let before = if m.contains_key(o) {
        m[o]
    } else {
        Seq::<Seq<char>>::empty()
    };
    let added = before.push(x);
    assert(index_added(m, o, x) == m.insert(o, added));
    assert(added[before.len() as int] == x);
    assert(added.contains(x));
    let i = added.index_of(x);
    assert(0 <= i < added.len() && added[i] == x);
    if i < before.len() {
        assert(before[i] == x);
        assert(before.contains(x));
    }
    assert(i == before.len());
    assert(added.update(i, added.last()).drop_last() =~= before);
    if m.contains_key(o) {
        assert(m.insert(o, added).insert(o, before) =~= m);
    } else {
        assert(m.insert(o, added).remove(o) =~= m);
    }
}

/// Listing a token and taking the listing down again leaves the sales and
/// both indexes as they were, when the token had no sale and appeared in
/// neither index before.
pub proof fn law_list_then_unlist(before: Contract, listed: Contract, after: Contract, sale: Sale)
    requires
        before.wf(),
        listed.sale_added(before, sale_key(sale.nft_contract_id@, sale.token_id@), sale),
        after.sale_removed(listed, sale.nft_contract_id@, sale.token_id@),
        !before.sales@.contains_key(sale_key(sale.nft_contract_id@, sale.token_id@)),
        !(before.by_owner_id@.contains_key(sale.owner_id@) && before.by_owner_id@[sale.owner_id@]@.contains(
            sale_key(sale.nft_contract_id@, sale.token_id@),
        )),
        !(before.by_nft_contract_id@.contains_key(sale.nft_contract_id@)
            && before.by_nft_contract_id@[sale.nft_contract_id@]@.contains(sale.token_id@)),
    ensures
        after.sales@ == before.sales@,
        index_view(after.by_owner_id@) == index_view(before.by_owner_id@),
        index_view(after.by_nft_contract_id@) == index_view(before.by_nft_contract_id@),
        after.same_settings(before),
{
    let k = sale_key(sale.nft_contract_id@, sale.token_id@);
    assert(listed.sales@[k] == sale);
    assert(after.sales@ =~= before.sales@);
    let bo = index_view(before.by_owner_id@);
    let bn = index_view(before.by_nft_contract_id@);
    assert forall|p: Seq<char>| #[trigger] bo.contains_key(p) implies bo[p].len() > 0 by {
        assert(before.by_owner_id@.contains_key(p));
    }
    assert forall|p: Seq<char>| #[trigger] bn.contains_key(p) implies bn[p].len() > 0 by {
        assert(before.by_nft_contract_id@.contains_key(p));
    }
    lemma_index_add_then_remove(bo, sale.owner_id@, k);
    lemma_index_add_then_remove(bn, sale.nft_contract_id@, sale.token_id@);
}

/// Adding tokens that are all accepted already changes nothing.
proof fn lemma_insert_all_present(t: Seq<Seq<char>>, ids: Seq<Seq<char>>)
    requires
        forall|i: int| 0 <= i < ids.len() ==> t.contains(#[trigger] ids[i]),
    ensures
        insert_all(t, ids) == t,
    decreases ids.len(),
{
    if ids.len() > 0 {
        let rest = ids.drop_last();
        assert forall|i: int| 0 <= i < rest.len() implies t.contains(#[trigger] rest[i]) by {
            assert(rest[i] == ids[i]);
        }
        lemma_insert_all_present(t, rest);
        assert(t.contains(ids[ids.len() - 1]));
    }
}

/// The accepted tokens only grow: adding a list keeps every token already
/// accepted in its place, accepts every token of the list, and adding the
/// same list again changes nothing.
pub proof fn law_accepted_tokens_only_grow(s: Seq<Seq<char>>, ids: Seq<Seq<char>>)
    ensures
        s.is_prefix_of(insert_all(s, ids)),
        forall|i: int| 0 <= i < ids.len() ==> insert_all(s, ids).contains(#[trigger] ids[i]),
        insert_all(insert_all(s, ids), ids) == insert_all(s, ids),
    decreases ids.len(),
{
    if ids.len() > 0 {
        let rest = ids.drop_last();
        law_accepted_tokens_only_grow(s, rest);
        let before = insert_all(s, rest);
        let after = insert_all(s, ids);
        let last = ids[ids.len() - 1];
        assert(after.len() >= before.len());
        assert forall|j: int| 0 <= j < before.len() implies after[j] == before[j] by {}
        assert forall|i: int| 0 <= i < ids.len() implies after.contains(#[trigger] ids[i]) by {
            if i < ids.len() - 1 {
                assert(rest[i] == ids[i]);
                assert(before.contains(rest[i]));
                let j = choose|j: int| 0 <= j < before.len() && before[j] == rest[i];
                assert(after[j] == ids[i]);
            } else if !before.contains(last) {
                assert(after[before.len() as int] == last);
            }
        }
    }
    lemma_insert_all_present(insert_all(s, ids), ids);
}

/// A smaller count of sales costs no more storage.
proof fn lemma_mul_le(a: int, b: int, r: int)
    by (nonlinear_arith)
    requires
        a <= b,
        0 <= r,
    ensures
        a * r <= b * r,
{
}

/// Taking a sale down keeps every seller's sales paid for by their storage deposit.
pub proof fn law_removal_keeps_storage_covered(before: Contract, after: Contract, c: Seq<char>, t: Seq<char>)
    requires
        before.storage_covered(),
        before.sales@.contains_key(sale_key(c, t)),
        before.by_owner_id@.contains_key(before.sales@[sale_key(c, t)].owner_id@),
        after.sale_removed(before, c, t),
    ensures
        after.storage_covered(),
{
    let k = sale_key(c, t);
    let o = before.sales@[k].owner_id@;
    let bv = index_view(before.by_owner_id@);
    let av = index_view(after.by_owner_id@);
    assert forall|p: Seq<char>| #[trigger] after.by_owner_id@.contains_key(p) implies after.sales_count(p)
        * spec_storage_per_sale() <= balance_of(after.storage_deposits@, p) by {
        assert(av.contains_key(p));
        assert(av[p] == after.by_owner_id@[p]@);
        assert(bv.contains_key(p));
        assert(before.by_owner_id@.contains_key(p));
        assert(bv[p] == before.by_owner_id@[p]@);
        if p == o {
            let rest = swap_removed(bv[o], k);
            assert(av[p] == rest);
            assert(rest.len() <= bv[o].len());
        } else {
            assert(av[p] == bv[p]);
        }
        assert(after.sales_count(p) <= before.sales_count(p));
        lemma_mul_le(after.sales_count(p) as int, before.sales_count(p) as int, spec_storage_per_sale() as int);
    }
}

/// Listing a sale for a seller whose deposit pays for one more sale keeps
/// every seller's sales paid for.
pub proof fn law_listing_keeps_storage_covered(before: Contract, after: Contract, k: Seq<char>, s: Sale)
    requires
        before.storage_covered(),
        (before.sales_count(s.owner_id@) + 1) * spec_storage_per_sale() <= balance_of(
            before.storage_deposits@,
            s.owner_id@,
        ),
        after.sale_added(before, k, s),
    ensures
        after.storage_covered(),
{
    let o = s.owner_id@;
    let bv = index_view(before.by_owner_id@);
    let av = index_view(after.by_owner_id@);
    assert forall|p: Seq<char>| #[trigger] after.by_owner_id@.contains_key(p) implies after.sales_count(p)
        * spec_storage_per_sale() <= balance_of(after.storage_deposits@, p) by {
        assert(av.contains_key(p));
        assert(av[p] == after.by_owner_id@[p]@);
        if p == o {
            assert(after.sales_count(p) <= before.sales_count(p) + 1) by {
                if before.by_owner_id@.contains_key(o) {
                    assert(bv[o] == before.by_owner_id@[o]@);
                }
            }
            lemma_mul_le(
                after.sales_count(p) as int,
                before.sales_count(p) + 1int,
                spec_storage_per_sale() as int,
            );
        } else {
            assert(av[p] == bv[p]);
            assert(before.by_owner_id@.contains_key(p));
            assert(bv[p] == before.by_owner_id@[p]@);
        }
    }
}

/// The market's fee is two and a half percent of the price, rounded down,
/// for every price: a thousand times the fee is at most twenty-five times
/// the price, and one more unit of fee would be too much. The seller keeps
/// the rest, never less than nothing.
pub proof fn law_fee_is_two_and_a_half_percent(price: u128)
    requires
        price * 25 <= u128::MAX,
    ensures
        0 <= spec_service_fee(price) <= price,
        spec_service_fee(price) * 1000 <= price * 25,
        price * 25 < (spec_service_fee(price) + 1) * 1000,
        price - spec_service_fee(price) >= price - price * 25 / 1000,
{
}

/// An offer tops the current bid in a token exactly when there is no bid in
/// that token or the offer is strictly greater than it: any amount above the
/// current bid, however small the step, becomes the new bid.
pub proof fn law_a_higher_offer_tops_the_bid(bids: Map<Seq<char>, Bid>, ft: Seq<char>, amount: u128)
    ensures
        !bids.contains_key(ft) ==> tops_bid(bids, ft, amount),
        bids.contains_key(ft) && amount > bids[ft].price ==> tops_bid(bids, ft, amount),
        bids.contains_key(ft) && amount <= bids[ft].price ==> !tops_bid(bids, ft, amount),
{
}

/// A listing keeps the seller's terms: the sale is an auction exactly when
/// the approval says so (a fixed-price sale when it says `false` or
/// nothing), it has royalties exactly when the approval gives them (the same
/// ones) and none otherwise, it asks the prices the approval asks, it starts
/// with no bid, and it is stamped with the block time in milliseconds.
pub proof fn law_listing_keeps_the_terms(
    s: Sale,
    owner_id: String,
    approval_id: u64,
    nft_contract_id: Seq<char>,
    token_id: String,
    args: SaleArgs,
    block_timestamp: u64,
)
    requires
        listed_from(s, owner_id, approval_id, nft_contract_id, token_id, args, block_timestamp),
    ensures
        forall|b: bool| args.is_auction == Some(b) ==> s.is_auction == b,
        args.is_auction is None ==> !s.is_auction,
        forall|b: bool| args.is_royalties == Some(b) ==> s.is_royalties == b,
        args.is_royalties is None ==> !s.is_royalties,
        forall|r: StrMap<u8>|
            args.royalties == Some(r) ==> (s.royalties matches Some(sr) && sr@ == r@),
        args.royalties is None ==> (s.royalties matches Some(sr) && sr@.dom().len() == 0),
        s.sale_conditions@ == args.sale_conditions@,
        s.bids@.dom().len() == 0,
        s.created_at * 1_000_000 <= block_timestamp < (s.created_at + 1) * 1_000_000,
        s.owner_id@ == owner_id@,
        s.token_id@ == token_id@,
        s.nft_contract_id@ == nft_contract_id,
        s.approval_id == approval_id,
{
    if args.royalties is None {
        let sr = s.royalties->0;
        assert(sr@.dom() =~= Set::<Seq<char>>::empty());
    }
    assert(s.bids@.dom() =~= Set::<Seq<char>>::empty());
}

/// What an account is counted as selling is the number of distinct sale
/// keys indexed under it; every sale it owns is among them, so the count is
/// at least the number of sales it owns.
pub proof fn law_sales_count_is_the_owner_index(m: Contract, o: Seq<char>)
    requires
        m.wf(),
    ensures
        m.by_owner_id@.contains_key(o) ==> m.sales_count(o) == m.by_owner_id@[o]@.to_set().len(),
        !m.by_owner_id@.contains_key(o) ==> m.sales_count(o) == 0,
        forall|k: Seq<char>|
            #![trigger m.sales@[k]]
            m.sales@.contains_key(k) && m.sales@[k].owner_id@ == o ==> m.by_owner_id@.contains_key(o)
                && m.by_owner_id@[o]@.contains(k),
        m.sales@.dom().filter(|k: Seq<char>| m.sales@[k].owner_id@ == o).len() <= m.sales_count(o),
{
    let owned = m.sales@.dom().filter(|k: Seq<char>| m.sales@[k].owner_id@ == o);
    lemma_str_map_finite(m.sales);
    assert forall|k: Seq<char>|
        #![trigger m.sales@[k]]
        m.sales@.contains_key(k) && m.sales@[k].owner_id@ == o implies m.by_owner_id@.contains_key(o)
        && m.by_owner_id@[o]@.contains(k) by {
        assert(m.sale_listed(k));
    }
    if m.by_owner_id@.contains_key(o) {
        let keys = m.by_owner_id@[o]@;
        keys.unique_seq_to_set();
        assert(owned.subset_of(keys.to_set())) by {
            assert forall|k: Seq<char>| owned.contains(k) implies keys.to_set().contains(k) by {
                assert(m.sale_listed(k));
            }
        }
        vstd::set_lib::lemma_len_subset(owned, keys.to_set());
    } else {
        assert(owned =~= Set::<Seq<char>>::empty()) by {
            assert forall|k: Seq<char>| !owned.contains(k) by {
                if owned.contains(k) {
                    assert(m.sale_listed(k));
                }
            }
        }
    }
}

} // verus!
