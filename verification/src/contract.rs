use vstd::prelude::*;

use crate::fees::{spec_storage_per_sale, storage_per_sale};
use crate::str_map::{StrMap, StrSet};
use crate::types::{MarketError, Sale, StorageBalanceBounds, Transfer};

verus! {

/// The market's state.
///
/// `sales` maps `"<nft contract>||<token>"` to the sale of that token;
/// `by_owner_id` maps each seller to the keys of their sales and
/// `by_nft_contract_id` maps each NFT contract to the tokens it has on sale.
#[derive(Debug)]
pub struct Contract {
    pub owner_id: String,
    pub ft_token_ids: StrSet,
    pub storage_deposits: StrMap<u128>,
    pub by_owner_id: StrMap<StrSet>,
    pub sales: StrMap<Sale>,
    pub by_nft_contract_id: StrMap<StrSet>,
}

/// The account id of NEAR itself, the fungible token that every market accepts.
pub open spec fn near_id() -> Seq<char> {
    seq!['n', 'e', 'a', 'r']
}

/// The key of the sale of token `t` of NFT contract `c`: `c`, then `||`, then `t`.
pub open spec fn sale_key(c: Seq<char>, t: Seq<char>) -> Seq<char> {
    c + seq!['|', '|'] + t
}

/// What `account` has deposited for storage (nothing counts as zero).
pub open spec fn balance_of(deposits: Map<Seq<char>, u128>, account: Seq<char>) -> u128 {
    if deposits.contains_key(account) {
        deposits[account]
    } else {
        0
    }
}

/// The sequence that an index of sets stands for, set by set.
pub open spec fn index_view(m: Map<Seq<char>, StrSet>) -> Map<Seq<char>, Seq<Seq<char>>> {
    m.map_values(|s: StrSet| s@)
}

/// The list of tokens after adding each of `ids` that is not there yet, in order.
pub open spec fn insert_all(s: Seq<Seq<char>>, ids: Seq<Seq<char>>) -> Seq<Seq<char>>
    decreases ids.len(),
{
    if ids.len() == 0 {
        s
    } else {
        let before = insert_all(s, ids.drop_last());
        if before.contains(ids.last()) {
            before
        } else {
            before.push(ids.last())
        }
    }
}

/// The views of a list of strings.
pub open spec fn string_views(v: Seq<String>) -> Seq<Seq<char>> {
    v.map_values(|s: String| s@)
}

impl Contract {
    /// The sale under key `k` is recorded in both indexes.
    pub open spec fn sale_listed(self, k: Seq<char>) -> bool {
        let s = self.sales@[k];
        &&& s.wf()
        &&& k == sale_key(s.nft_contract_id@, s.token_id@)
        &&& self.by_owner_id@.contains_key(s.owner_id@)
        &&& self.by_owner_id@[s.owner_id@]@.contains(k)
        &&& self.by_nft_contract_id@.contains_key(s.nft_contract_id@)
        &&& self.by_nft_contract_id@[s.nft_contract_id@]@.contains(s.token_id@)
    }

    /// The market's invariant: every collection keeps its keys once, no
    /// index keeps an empty set, and every sale is found again through its
    /// owner and through its NFT contract.
    pub open spec fn wf(self) -> bool {
        &&& self.ft_token_ids.wf()
        &&& self.storage_deposits.wf()
        &&& self.by_owner_id.wf()
        &&& self.sales.wf()
        &&& self.by_nft_contract_id.wf()
        &&& forall|o: Seq<char>| #[trigger]
            self.by_owner_id@.contains_key(o) ==> self.by_owner_id@[o].wf()
                && self.by_owner_id@[o]@.len() > 0
        &&& forall|c: Seq<char>| #[trigger]
            self.by_nft_contract_id@.contains_key(c) ==> self.by_nft_contract_id@[c].wf()
                && self.by_nft_contract_id@[c]@.len() > 0
        &&& forall|k: Seq<char>| #[trigger] self.sales@.contains_key(k) ==> self.sale_listed(k)
    }

    /// How many sale keys `account` has in the owner index.
    pub open spec fn sales_count(self, account: Seq<char>) -> nat {
        if self.by_owner_id@.contains_key(account) {
            self.by_owner_id@[account]@.len()
        } else {
            0
        }
    }

    /// Every seller's storage deposit pays for the sales indexed under them.
    pub open spec fn storage_covered(self) -> bool {
        forall|o: Seq<char>| #[trigger]
            self.by_owner_id@.contains_key(o) ==> self.sales_count(o) * spec_storage_per_sale()
                <= balance_of(self.storage_deposits@, o)
    }

    /// Everything but the supported tokens is as in `other`.
    pub open spec fn same_but_tokens(self, other: Self) -> bool {
        &&& self.owner_id == other.owner_id
        &&& self.storage_deposits == other.storage_deposits
        &&& self.by_owner_id == other.by_owner_id
        &&& self.sales == other.sales
        &&& self.by_nft_contract_id == other.by_nft_contract_id
    }

    /// Everything but the storage deposits is as in `other`.
    pub open spec fn same_but_deposits(self, other: Self) -> bool {
        &&& self.owner_id == other.owner_id
        &&& self.ft_token_ids == other.ft_token_ids
        &&& self.by_owner_id == other.by_owner_id
        &&& self.sales == other.sales
        &&& self.by_nft_contract_id == other.by_nft_contract_id
    }

    /// Sets up an empty market run by `owner_id` that accepts NEAR.
    pub fn new(owner_id: String) -> (c: Contract)
        ensures
            c.wf(),
            c.owner_id == owner_id,
            c.ft_token_ids@ == seq![near_id()],
            c.storage_deposits@ == Map::<Seq<char>, u128>::empty(),
            c.by_owner_id@ == Map::<Seq<char>, StrSet>::empty(),
            c.sales@ == Map::<Seq<char>, Sale>::empty(),
            c.by_nft_contract_id@ == Map::<Seq<char>, StrSet>::empty(),
    {
        let mut ft_token_ids = StrSet::new();
        ft_token_ids.insert(near_account());
        assert(ft_token_ids@ =~= seq![near_id()]);
        Contract {
            owner_id,
            ft_token_ids,
            storage_deposits: StrMap::new(),
            by_owner_id: StrMap::new(),
            sales: StrMap::new(),
            by_nft_contract_id: StrMap::new(),
        }
    }

    /// Refuses anyone but the market's owner.
    pub(crate) fn assert_owner(&self, predecessor: &String) -> (r: Result<(), MarketError>)
        ensures
            r == (if predecessor@ == self.owner_id@ {
                Ok(())
            } else {
                Err(MarketError::OwnerOnly)
            }),
    {
        if *predecessor == self.owner_id {
            Ok(())
        } else {
            Err(MarketError::OwnerOnly)
        }
    }

    /// The market's owner adds fungible tokens to those the market accepts.
    /// For each token, in order, tells whether it was new.
    pub fn add_ft_token_ids(&mut self, predecessor: &String, ft_token_ids: Vec<String>) -> (r:
        Result<Vec<bool>, MarketError>)
        requires
            old(self).wf(),
        ensures
            final(self).wf(),
            old(self).storage_covered() ==> final(self).storage_covered(),
            predecessor@ != old(self).owner_id@ ==> r == Err::<Vec<bool>, MarketError>(
                MarketError::OwnerOnly,
            ) && *final(self) == *old(self),
            predecessor@ == old(self).owner_id@ ==> {
                let ids = string_views(ft_token_ids@);
                &&& r matches Ok(added) && added@.len() == ids.len() && forall|i: int|
                    0 <= i < ids.len() ==> #[trigger] added@[i] == !insert_all(
                        old(self).ft_token_ids@,
                        ids.take(i),
                    ).contains(ids[i])
                &&& final(self).ft_token_ids@ == insert_all(old(self).ft_token_ids@, ids)
                &&& final(self).ft_token_ids@.no_duplicates()
                &&& final(self).same_but_tokens(*old(self))
            },
    {
        self.assert_owner(predecessor)?;
        let ghost ids = string_views(ft_token_ids@);
        let ghost start = self.ft_token_ids@;
        let mut added: Vec<bool> = Vec::new();
        let n = ft_token_ids.len();
        let mut i: usize = 0;
        while i < n
            invariant
                old(self).wf(),
                n == ft_token_ids@.len(),
                ids == string_views(ft_token_ids@),
                start == old(self).ft_token_ids@,
                i <= n,
                self.ft_token_ids.wf(),
                self.ft_token_ids@ == insert_all(start, ids.take(i as int)),
                self.same_but_tokens(*old(self)),
                added@.len() == i,
                forall|j: int|
                    0 <= j < i ==> #[trigger] added@[j] == !insert_all(start, ids.take(j)).contains(
                        ids[j],
                    ),
            decreases n - i,
        {
            let id = ft_token_ids[i].clone();
            proof {
                assert(ids.take(i + 1).drop_last() =~= ids.take(i as int));
                assert(ids.take(i + 1).last() == ids[i as int]);
                assert(ids[i as int] == ft_token_ids@[i as int]@);
            }
            let fresh = self.ft_token_ids.insert(id);
            added.push(fresh);
            i = i + 1;
        }
        proof {
            assert(ids.take(n as int) =~= ids);
        }
        Ok(added)
    }

    /// Adds `deposit` to the storage balance of `account_id`, or of the
    /// caller when no account is named. A deposit must pay for at least one sale.
    pub fn storage_deposit(&mut self, predecessor: String, account_id: Option<String>, deposit: u128) -> (r:
        Result<(), MarketError>)
        requires
            old(self).wf(),
        ensures
            final(self).wf(),
            old(self).storage_covered() ==> final(self).storage_covered(),
            ({
                let target = match account_id {
                    Some(a) => a@,
                    None => predecessor@,
                };
                let before = balance_of(old(self).storage_deposits@, target);
                if deposit < spec_storage_per_sale() {
                    r == Err::<(), MarketError>(
                        MarketError::DepositBelowMinimum { minimum: spec_storage_per_sale() },
                    ) && *final(self) == *old(self)
                } else if before + deposit > u128::MAX {
                    r == Err::<(), MarketError>(MarketError::ArithmeticOverflow) && *final(self)
                        == *old(self)
                } else {
                    &&& r == Ok::<(), MarketError>(())
                    &&& final(self).storage_deposits@ == old(self).storage_deposits@.insert(
                        target,
                        (before + deposit) as u128,
                    )
                    &&& balance_of(final(self).storage_deposits@, target) == before + deposit
                    &&& final(self).same_but_deposits(*old(self))
                }
            }),
    {
        let storage_account_id = match account_id {
            Some(a) => a,
            None => predecessor,
        };
        let minimum = storage_per_sale();
        if deposit < minimum {
            return Err(MarketError::DepositBelowMinimum { minimum });
        }
        let balance: u128 = match self.storage_deposits.get(&storage_account_id) {
            Some(b) => *b,
            None => 0,
        };
        match balance.checked_add(deposit) {
            Some(total) => {
                self.storage_deposits.insert(storage_account_id, total);
                Ok(())
            },
            None => Err(MarketError::ArithmeticOverflow),
        }
    }

    /// Pays the caller back the part of their storage deposit that their
    /// sales do not hold: each sale keeps the storage price of one sale.
    pub fn storage_withdraw(&mut self, predecessor: String, deposit: u128) -> (r: Result<
        Option<Transfer>,
        MarketError,
    >)
        requires
            old(self).wf(),
        ensures
            final(self).wf(),
            old(self).storage_covered() ==> final(self).storage_covered(),
            ({
                let balance = balance_of(old(self).storage_deposits@, predecessor@);
                let held = old(self).sales_count(predecessor@) * spec_storage_per_sale();
                if deposit != 1 {
                    r == Err::<Option<Transfer>, MarketError>(MarketError::RequiresOneYocto)
                        && *final(self) == *old(self)
                } else if held > u128::MAX || balance < held {
                    r == Err::<Option<Transfer>, MarketError>(MarketError::ArithmeticOverflow)
                        && *final(self) == *old(self)
                } else {
                    &&& r matches Ok(t) && (if balance - held > 0 {
                        t matches Some(t) && t.receiver_id == predecessor && t.amount == balance
                            - held
                    } else {
                        t is None
                    })
                    &&& final(self).storage_deposits@ == if held > 0 {
                        old(self).storage_deposits@.insert(predecessor@, held as u128)
                    } else {
                        old(self).storage_deposits@.remove(predecessor@)
                    }
                    &&& balance_of(final(self).storage_deposits@, predecessor@) == held
                    &&& final(self).same_but_deposits(*old(self))
                }
            }),
    {
        if deposit != 1 {
            return Err(MarketError::RequiresOneYocto);
        }
        let amount: u128 = match self.storage_deposits.get(&predecessor) {
            Some(b) => *b,
            None => 0,
        };
        let len: u64 = self.get_supply_by_owner_id(&predecessor);
        let diff: u128 = match (len as u128).checked_mul(storage_per_sale()) {
            Some(d) => d,
            None => {
                return Err(MarketError::ArithmeticOverflow);
            },
        };
        if amount < diff {
            return Err(MarketError::ArithmeticOverflow);
        }
        let rest = amount - diff;
        self.storage_deposits.remove(&predecessor);
        if diff > 0 {
            self.storage_deposits.insert(predecessor.clone(), diff);
        }
        if rest > 0 {
            Ok(Some(Transfer { receiver_id: predecessor, amount: rest }))
        } else {
            Ok(None)
        }
    }

    /// The fungible tokens the market accepts, in the order they were added.
    pub fn supported_ft_token_ids(&self) -> (v: Vec<String>)
        ensures
            string_views(v@) == self.ft_token_ids@,
            self.ft_token_ids.wf() ==> string_views(v@).no_duplicates(),
    {
        self.ft_token_ids.to_vec()
    }

    /// Storage deposits start at the price of one sale and have no maximum.
    pub fn storage_balance_bounds(&self) -> (b: StorageBalanceBounds)
        ensures
            b == (StorageBalanceBounds { min: spec_storage_per_sale(), max: None }),
    {
        StorageBalanceBounds { min: storage_per_sale(), max: None }
    }

    /// The least storage deposit: the price of one sale.
    pub fn storage_minimum_balance(&self) -> (m: u128)
        ensures
            m == spec_storage_per_sale(),
    {
        storage_per_sale()
    }

    /// What `account_id` holds as storage deposit.
    pub fn storage_balance_of(&self, account_id: String) -> (b: u128)
        requires
            self.wf(),
        ensures
            b == balance_of(self.storage_deposits@, account_id@),
    {
        match self.storage_deposits.get(&account_id) {
            Some(b) => *b,
            None => 0,
        }
    }

    /// What `account_id` holds as storage deposit (older name of `storage_balance_of`).
    pub fn storage_paid(&self, account_id: String) -> (b: u128)
        requires
            self.wf(),
        ensures
            b == balance_of(self.storage_deposits@, account_id@),
    {
        match self.storage_deposits.get(&account_id) {
            Some(b) => *b,
            None => 0,
        }
    }

    /// The storage price of one sale (older name of `storage_minimum_balance`).
    pub fn storage_amount(&self) -> (m: u128)
        ensures
            m == spec_storage_per_sale(),
    {
        storage_per_sale()
    }

    /// How many sales `account_id` has listed.
    pub fn get_supply_by_owner_id(&self, account_id: &String) -> (n: u64)
        requires
            self.wf(),
        ensures
            n == self.sales_count(account_id@),
    {
        match self.by_owner_id.get(account_id) {
            Some(s) => s.len() as u64,
            None => 0,
        }
    }

    /// The sale stored under `contract_and_token_id`, if any.
    pub fn get_sale(&self, contract_and_token_id: &String) -> (r: Option<&Sale>)
        requires
            self.wf(),
        ensures
            r is Some <==> self.sales@.contains_key(contract_and_token_id@),
            r matches Some(s) ==> *s == self.sales@[contract_and_token_id@],
    {
        self.sales.get(contract_and_token_id)
    }
}

/// Whether every set of `index` keeps each string once and is not empty.
fn check_index(index: &StrMap<StrSet>) -> (ok: bool)
    requires
        index.wf(),
    ensures
        ok == forall|o: Seq<char>| #[trigger]
            index@.contains_key(o) ==> index@[o].wf() && index@[o]@.len() > 0,
{
    let entries = index.entries();
    let n = entries.len();
    let mut i: usize = 0;
    while i < n
        invariant
            n == entries@.len(),
            i <= n,
            forall|j: int|
                0 <= j < entries@.len() ==> #[trigger] index@.contains_key(entries@[j].0@)
                    && index@[entries@[j].0@] == entries@[j].1,
            forall|k: Seq<char>| #[trigger]
                index@.contains_key(k) ==> exists|j: int| #[trigger] crate::str_map::key_at(entries@, j, k),
            forall|j: int| 0 <= j < i ==> (#[trigger] entries@[j]).1.wf() && entries@[j].1@.len() > 0,
        decreases n - i,
    {
        if !entries[i].1.check_wf() || entries[i].1.is_empty() {
            proof {
                assert(index@.contains_key(entries@[i as int].0@));
            }
            return false;
        }
        i = i + 1;
    }
    proof {
        assert forall|o: Seq<char>| #[trigger] index@.contains_key(o) implies index@[o].wf()
            && index@[o]@.len() > 0 by {
            let j = choose|j: int| #[trigger] crate::str_map::key_at(entries@, j, o);
            assert(entries@[j].1.wf());
        }
    }
    true
}

impl Contract {
    /// Whether the state keeps the market's invariant; a state read back
    /// from storage is tested with this before use.
    pub fn check_wf(&self) -> (ok: bool)
        ensures
            ok == self.wf(),
    {
        if !self.ft_token_ids.check_wf() || !self.storage_deposits.check_wf()
            || !self.by_owner_id.check_wf() || !self.sales.check_wf()
            || !self.by_nft_contract_id.check_wf() {
            return false;
        }
        if !check_index(&self.by_owner_id) || !check_index(&self.by_nft_contract_id) {
            return false;
        }
        let entries = self.sales.entries();
        let n = entries.len();
        let mut i: usize = 0;
        while i < n
            invariant
                n == entries@.len(),
                i <= n,
                self.by_owner_id.wf(),
                self.by_nft_contract_id.wf(),
                forall|j: int|
                    0 <= j < entries@.len() ==> #[trigger] self.sales@.contains_key(entries@[j].0@)
                        && self.sales@[entries@[j].0@] == entries@[j].1,
                forall|k: Seq<char>| #[trigger]
                    self.sales@.contains_key(k) ==> exists|j: int|
                        #[trigger] crate::str_map::key_at(entries@, j, k),
                forall|j: int| 0 <= j < i ==> self.sale_listed(#[trigger] entries@[j].0@),
            decreases n - i,
        {
            let k = &entries[i].0;
            let s = &entries[i].1;
            proof {
                assert(self.sales@.contains_key(entries@[i as int].0@));
            }
            if !s.check_wf() {
                return false;
            }
            let key = contract_and_token_id(&s.nft_contract_id, &s.token_id);
            if *k != key {
                return false;
            }
            match self.by_owner_id.get(&s.owner_id) {
                None => {
                    return false;
                },
                Some(set) => {
                    if !set.contains(k) {
                        return false;
                    }
                },
            }
            match self.by_nft_contract_id.get(&s.nft_contract_id) {
                None => {
                    return false;
                },
                Some(set) => {
                    if !set.contains(&s.token_id) {
                        return false;
                    }
                },
            }
            i = i + 1;
        }
        proof {
            assert forall|k: Seq<char>| #[trigger] self.sales@.contains_key(k) implies self.sale_listed(
                k,
            ) by {
                let j = choose|j: int| #[trigger] crate::str_map::key_at(entries@, j, k);
                assert(self.sale_listed(entries@[j].0@));
            }
        }
        true
    }
}

/// The account id `near`.
pub fn near_account() -> (s: String)
    ensures
        s@ == near_id(),
{
    let s = String::from_str("near");
    proof {
        reveal_strlit("near");
    }
    assert(s@ =~= near_id());
    s
}

/// The key of the sale of token `token_id` of `nft_contract_id`.
pub fn contract_and_token_id(nft_contract_id: &String, token_id: &String) -> (k: String)
    ensures
        k@ == sale_key(nft_contract_id@, token_id@),
{
    let mut k = nft_contract_id.clone();
    k.append("||");
    k.append(token_id.as_str());
    proof {
        reveal_strlit("||");
        assert("||"@ =~= seq!['|', '|']);
    }
    k
}

} // verus!
