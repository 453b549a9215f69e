use nft_marketplaces::{
    contract_and_token_id, near_account, service_fee_calculate, storage_per_sale, Bid, Contract,
    MarketError, NonFungibleTokenApprovalsReceiver, OfferOutcome, SaleArgs, StorageBalanceBounds,
    StorageKey, StrMap, StrSet, Transfer,
};

const ONE_SALE: u128 = 10_000_000_000_000_000_000_000;
const NEAR: u128 = 1_000_000_000_000_000_000_000_000;
/// What the simulator attaches as a storage deposit: 50 NEAR.
const STORAGE_AMOUNT: u128 = 50 * NEAR;

fn s(x: &str) -> String {
    x.to_string()
}

fn near_price(price: u128) -> SaleArgs {
    let mut conditions = StrMap::new();
    conditions.insert(s("near"), price);
    SaleArgs { sale_conditions: conditions, is_auction: None, is_royalties: None, royalties: None }
}

/// A market run by `bob` where `alice` paid storage for `sales` sales and
/// listed token `P001` of contract `nft` at `price` NEAR.
fn listed_market(price: u128, sales: u128) -> Contract {
    let mut m = Contract::new(s("bob"));
    m.storage_deposit(s("alice"), None, sales * ONE_SALE).unwrap();
    m.nft_on_approve(s("nft"), s("alice"), 5_000_000_000, s("P001"), s("alice"), 7, Some(near_price(price)))
        .unwrap();
    m
}

#[test]
fn init_test() {
    let market = Contract::new(s("bob"));
    assert_eq!(market.owner_id, "bob");
    assert_eq!(market.supported_ft_token_ids(), vec![s("near")]);
}

#[test]
fn check_promise() {
    // bob runs the market; bob deposits storage for alice.
    let mut market = Contract::new(s("bob"));
    market.storage_deposit(s("bob"), Some(s("alice")), STORAGE_AMOUNT).unwrap();
    println!("{:#?}", market.supported_ft_token_ids());
    assert_eq!(market.supported_ft_token_ids(), vec![s("near")]);
    println!("{:#?}", market.storage_balance_of(s("alice")));
    assert_eq!(market.storage_balance_of(s("alice")), STORAGE_AMOUNT);
    // alice approves the market for P001 on contract `nft` with the message
    // {"sale_conditions": {"near": "100"}, "is_auction": "", "is_royalties": "",
    // "royalties": ""}: its empty strings are not flags, so it does not read
    // as sale arguments.
    let res = market.nft_on_approve(s("nft"), s("alice"), 0, s("P001"), s("alice"), 0, None);
    assert_eq!(res, Err(MarketError::InvalidSaleArgs));
    assert_eq!(market.get_supply_by_owner_id(&s("alice")), 0);
}

#[test]
fn storage_per_sale_is_a_thousand_bytes() {
    assert_eq!(storage_per_sale(), ONE_SALE);
    let m = Contract::new(s("bob"));
    assert_eq!(m.storage_minimum_balance(), ONE_SALE);
    assert_eq!(m.storage_amount(), ONE_SALE);
    assert_eq!(m.storage_balance_bounds(), StorageBalanceBounds { min: ONE_SALE, max: None });
}

#[test]
fn service_fee_is_two_and_a_half_percent() {
    assert_eq!(service_fee_calculate(1000), 25);
    assert_eq!(service_fee_calculate(39), 0);
    assert_eq!(service_fee_calculate(40), 1);
    assert_eq!(service_fee_calculate(0), 0);
}

#[test]
fn sale_key_joins_with_two_bars() {
    assert_eq!(contract_and_token_id(&s("nft.near"), &s("P001")), "nft.near||P001");
    assert_eq!(near_account(), "near");
}

#[test]
fn storage_keys_are_one_byte() {
    assert_eq!(StorageKey::FTTokenIds.into_storage_key(), vec![0u8]);
    assert_eq!(StorageKey::StorageDeposits.into_storage_key(), vec![1u8]);
    assert_eq!(StorageKey::ByOwnerId.into_storage_key(), vec![2u8]);
}

#[test]
fn only_owner_adds_tokens() {
    let mut m = Contract::new(s("bob"));
    assert_eq!(m.add_ft_token_ids(&s("eve"), vec![s("usdc.near")]), Err(MarketError::OwnerOnly));
    assert_eq!(m.supported_ft_token_ids(), vec![s("near")]);
    let added = m.add_ft_token_ids(&s("bob"), vec![s("usdc.near"), s("near"), s("usdc.near"), s("dai.near")]);
    assert_eq!(added, Ok(vec![true, false, false, true]));
    assert_eq!(m.supported_ft_token_ids(), vec![s("near"), s("usdc.near"), s("dai.near")]);
}

#[test]
fn storage_deposit_accumulates() {
    let mut m = Contract::new(s("bob"));
    assert_eq!(
        m.storage_deposit(s("alice"), None, ONE_SALE - 1),
        Err(MarketError::DepositBelowMinimum { minimum: ONE_SALE })
    );
    assert_eq!(m.storage_balance_of(s("alice")), 0);
    m.storage_deposit(s("alice"), None, ONE_SALE).unwrap();
    m.storage_deposit(s("carol"), Some(s("alice")), 2 * ONE_SALE).unwrap();
    assert_eq!(m.storage_balance_of(s("alice")), 3 * ONE_SALE);
    assert_eq!(m.storage_paid(s("alice")), 3 * ONE_SALE);
    assert_eq!(m.storage_balance_of(s("carol")), 0);
    assert_eq!(m.storage_deposit(s("alice"), None, u128::MAX), Err(MarketError::ArithmeticOverflow));
    assert_eq!(m.storage_balance_of(s("alice")), 3 * ONE_SALE);
}

#[test]
fn storage_withdraw_keeps_what_sales_hold() {
    let mut m = listed_market(100, 3);
    assert_eq!(m.storage_withdraw(s("alice"), 0), Err(MarketError::RequiresOneYocto));
    let paid = m.storage_withdraw(s("alice"), 1).unwrap();
    assert_eq!(paid, Some(Transfer { receiver_id: s("alice"), amount: 2 * ONE_SALE }));
    assert_eq!(m.storage_balance_of(s("alice")), ONE_SALE);
    // Nothing more to pay back: the one sale holds the rest.
    assert_eq!(m.storage_withdraw(s("alice"), 1).unwrap(), None);
    assert_eq!(m.storage_balance_of(s("alice")), ONE_SALE);
    // Without sales, everything goes back.
    let mut empty = Contract::new(s("bob"));
    empty.storage_deposit(s("dave"), None, ONE_SALE).unwrap();
    assert_eq!(
        empty.storage_withdraw(s("dave"), 1).unwrap(),
        Some(Transfer { receiver_id: s("dave"), amount: ONE_SALE })
    );
    assert_eq!(empty.storage_balance_of(s("dave")), 0);
}

#[test]
fn approval_lists_a_sale() {
    let m = listed_market(100, 1);
    let key = s("nft||P001");
    let sale = m.get_sale(&key).unwrap();
    assert_eq!(sale.owner_id, "alice");
    assert_eq!(sale.nft_contract_id, "nft");
    assert_eq!(sale.token_id, "P001");
    assert_eq!(sale.approval_id, 7);
    assert_eq!(sale.created_at, 5_000);
    assert!(!sale.is_auction);
    assert!(!sale.is_royalties);
    assert_eq!(sale.sale_conditions.get(&s("near")), Some(&100));
    assert_eq!(sale.bids.len(), 0);
    assert_eq!(sale.royalties.as_ref().map(|r| r.len()), Some(0));
    assert_eq!(m.get_supply_by_owner_id(&s("alice")), 1);
    assert_eq!(m.by_owner_id.get(&s("alice")).unwrap().to_vec(), vec![key.clone()]);
    assert_eq!(m.by_nft_contract_id.get(&s("nft")).unwrap().to_vec(), vec![s("P001")]);
}

#[test]
fn approval_refusals() {
    let mut m = Contract::new(s("bob"));
    assert_eq!(
        m.nft_on_approve(s("alice"), s("alice"), 0, s("P001"), s("alice"), 0, Some(near_price(1))),
        Err(MarketError::NotCrossContractCall)
    );
    assert_eq!(
        m.nft_on_approve(s("nft"), s("alice"), 0, s("P001"), s("carol"), 0, Some(near_price(1))),
        Err(MarketError::OwnerNotSigner)
    );
    assert_eq!(
        m.nft_on_approve(s("nft"), s("alice"), 0, s("P001"), s("alice"), 0, Some(near_price(1))),
        Err(MarketError::InsufficientStorage { paid: 0, sales: 1, rate: ONE_SALE })
    );
    m.storage_deposit(s("alice"), None, ONE_SALE).unwrap();
    let mut args = near_price(1);
    args.sale_conditions.insert(s("usdc.near"), 5);
    assert_eq!(
        m.nft_on_approve(s("nft"), s("alice"), 0, s("P001"), s("alice"), 0, Some(args)),
        Err(MarketError::TokenNotSupported { ft_token_id: s("usdc.near") })
    );
    assert!(m.get_sale(&s("nft||P001")).is_none());
    m.nft_on_approve(s("nft"), s("alice"), 0, s("P001"), s("alice"), 0, Some(near_price(1))).unwrap();
    // One sale paid for, one sale listed: a second one is refused.
    assert_eq!(
        m.nft_on_approve(s("nft"), s("alice"), 0, s("P002"), s("alice"), 0, Some(near_price(1))),
        Err(MarketError::InsufficientStorage { paid: ONE_SALE, sales: 2, rate: ONE_SALE })
    );
}

#[test]
fn offer_below_price_becomes_the_bid() {
    let mut m = listed_market(100, 1);
    let first = m.offer(s("carol"), 10 * NEAR, s("nft"), s("P001")).unwrap();
    assert!(matches!(first, OfferOutcome::BidPlaced { refund: None }));
    let second = m.offer(s("dave"), 20 * NEAR, s("nft"), s("P001")).unwrap();
    match second {
        OfferOutcome::BidPlaced { refund } => {
            assert_eq!(refund, Some(Transfer { receiver_id: s("carol"), amount: 10 * NEAR }))
        }
        _ => panic!("expected a bid"),
    }
    let sale = m.get_sale(&s("nft||P001")).unwrap();
    let bid = sale.bids.get(&s("near")).unwrap();
    assert_eq!(bid.owner_id, "dave");
    assert_eq!(bid.price, 20 * NEAR);
}

#[test]
fn offer_at_price_buys() {
    let mut m = listed_market(100, 1);
    let outcome = m.offer(s("carol"), 100 * NEAR, s("nft"), s("P001")).unwrap();
    match outcome {
        OfferOutcome::Purchased(p) => {
            assert_eq!(p.buyer_id, "carol");
            assert_eq!(p.nft_contract_id, "nft");
            assert_eq!(p.token_id, "P001");
            assert_eq!(p.ft_token_id, "near");
            assert_eq!(p.price, 100 * NEAR);
            assert_eq!(p.approval_id, 7);
            assert_eq!(p.sale.owner_id, "alice");
            let (answer, pay) = m.resolve_purchase(p.ft_token_id, p.buyer_id, p.sale, p.price).unwrap();
            assert_eq!(answer, 1);
            assert_eq!(pay, Transfer { receiver_id: s("alice"), amount: 100 * NEAR - 25 * NEAR / 10 });
        }
        _ => panic!("expected a purchase"),
    }
    assert!(m.get_sale(&s("nft||P001")).is_none());
    assert_eq!(m.get_supply_by_owner_id(&s("alice")), 0);
    assert!(m.by_owner_id.get(&s("alice")).is_none());
    assert!(m.by_nft_contract_id.get(&s("nft")).is_none());
}

#[test]
fn offer_refusals_and_no_ops() {
    let mut m = listed_market(100, 1);
    assert!(matches!(m.offer(s("carol"), 1, s("nft"), s("P999")), Err(MarketError::NoSale)));
    assert!(matches!(m.offer(s("alice"), 1, s("nft"), s("P001")), Err(MarketError::OwnSale)));
    assert!(matches!(m.offer(s("carol"), 0, s("nft"), s("P001")), Err(MarketError::ZeroDeposit)));
    // A deposit above the asking price changes nothing.
    assert!(matches!(m.offer(s("carol"), 101 * NEAR, s("nft"), s("P001")), Ok(OfferOutcome::Kept)));
    assert_eq!(m.get_sale(&s("nft||P001")).unwrap().bids.len(), 0);

    let mut usdc_only = Contract::new(s("bob"));
    usdc_only.add_ft_token_ids(&s("bob"), vec![s("usdc.near")]).unwrap();
    usdc_only.storage_deposit(s("alice"), None, ONE_SALE).unwrap();
    let mut conditions = StrMap::new();
    conditions.insert(s("usdc.near"), 5);
    let args = SaleArgs { sale_conditions: conditions, is_auction: Some(true), is_royalties: None, royalties: None };
    usdc_only.nft_on_approve(s("nft"), s("alice"), 0, s("P001"), s("alice"), 0, Some(args)).unwrap();
    assert!(matches!(
        usdc_only.offer(s("carol"), 1, s("nft"), s("P001")),
        Err(MarketError::NotForSaleInNear)
    ));

    let mut auction = Contract::new(s("bob"));
    auction.storage_deposit(s("alice"), None, ONE_SALE).unwrap();
    let mut args = near_price(100);
    args.is_auction = Some(true);
    auction.nft_on_approve(s("nft"), s("alice"), 0, s("P001"), s("alice"), 0, Some(args)).unwrap();
    assert!(matches!(auction.offer(s("carol"), NEAR, s("nft"), s("P001")), Ok(OfferOutcome::Kept)));
    assert!(auction.get_sale(&s("nft||P001")).unwrap().is_auction);

    let mut huge = listed_market(u128::MAX / NEAR + 1, 1);
    assert!(matches!(
        huge.offer(s("carol"), NEAR, s("nft"), s("P001")),
        Err(MarketError::ArithmeticOverflow)
    ));
}

#[test]
fn add_bid_only_in_near() {
    let mut m = listed_market(100, 1);
    let key = s("nft||P001");
    let mut copy = m.get_sale(&key).unwrap().duplicate();
    let refund = m.add_bid(key.clone(), 5, s("usdc.near"), s("carol"), &mut copy);
    assert_eq!(refund, None);
    assert_eq!(m.get_sale(&key).unwrap().bids.len(), 0);
    let refund = m.add_bid(key.clone(), 5, s("near"), s("carol"), &mut copy);
    assert_eq!(refund, None);
    assert_eq!(copy.bids.get(&s("near")).map(|b| b.price), Some(5));
    assert_eq!(m.get_sale(&key).unwrap().bids.get(&s("near")).map(|b| b.price), Some(5));
}

#[test]
fn accept_offer_sells_to_the_bidder() {
    let mut m = listed_market(100, 1);
    m.offer(s("carol"), 10 * NEAR, s("nft"), s("P001")).unwrap();
    assert!(matches!(
        m.accept_offer(s("alice"), s("nft"), s("P001"), s("usdc.near")),
        Err(MarketError::NoBids)
    ));
    assert!(matches!(
        m.accept_offer(s("eve"), s("nft"), s("P001"), s("near")),
        Err(MarketError::NotSaleOwner)
    ));
    assert!(m.get_sale(&s("nft||P001")).is_some());
    let p = m.accept_offer(s("alice"), s("nft"), s("P001"), s("near")).unwrap();
    assert_eq!(p.buyer_id, "carol");
    assert_eq!(p.price, 10 * NEAR);
    assert_eq!(p.ft_token_id, "near");
    assert_eq!(p.sale.bids.len(), 0);
    assert!(m.get_sale(&s("nft||P001")).is_none());
    assert!(matches!(
        m.accept_offer(s("alice"), s("nft"), s("P001"), s("near")),
        Err(MarketError::NoSale)
    ));
}

#[test]
fn remove_sale_pays_back_the_bid() {
    let mut m = listed_market(100, 1);
    m.offer(s("carol"), 10 * NEAR, s("nft"), s("P001")).unwrap();
    assert_eq!(
        m.remove_sale(s("alice"), 0, s("nft"), s("P001"), s("near")),
        Err(MarketError::RequiresOneYocto)
    );
    assert_eq!(
        m.remove_sale(s("eve"), 1, s("nft"), s("P001"), s("near")),
        Err(MarketError::NotSaleOwner)
    );
    assert_eq!(m.remove_sale(s("alice"), 1, s("nft"), s("P999"), s("near")), Err(MarketError::NoSale));
    assert_eq!(
        m.remove_sale(s("alice"), 1, s("nft"), s("P001"), s("near")),
        Ok(Some(Transfer { receiver_id: s("carol"), amount: 10 * NEAR }))
    );
    assert!(m.get_sale(&s("nft||P001")).is_none());
    assert_eq!(m.get_supply_by_owner_id(&s("alice")), 0);
}

#[test]
fn remove_sale_without_bid() {
    let mut m = listed_market(100, 1);
    assert_eq!(m.remove_sale(s("alice"), 1, s("nft"), s("P001"), s("near")), Ok(None));
}

#[test]
fn update_price_rules() {
    let mut m = listed_market(100, 1);
    m.offer(s("carol"), 10 * NEAR, s("nft"), s("P001")).unwrap();
    assert_eq!(
        m.update_price(s("alice"), 0, s("nft"), s("P001"), s("near"), 200),
        Err(MarketError::RequiresOneYocto)
    );
    assert_eq!(
        m.update_price(s("eve"), 1, s("nft"), s("P001"), s("near"), 200),
        Err(MarketError::NotSaleOwner)
    );
    assert_eq!(
        m.update_price(s("alice"), 1, s("nft"), s("P001"), s("near"), 10 * NEAR),
        Err(MarketError::PriceNotAboveBid)
    );
    assert_eq!(
        m.update_price(s("alice"), 1, s("nft"), s("P001"), s("usdc.near"), 5),
        Err(MarketError::TokenNotSupported { ft_token_id: s("usdc.near") })
    );
    assert_eq!(m.update_price(s("alice"), 1, s("nft"), s("P001"), s("near"), 10 * NEAR + 1), Ok(()));
    let sale = m.get_sale(&s("nft||P001")).unwrap();
    assert_eq!(sale.sale_conditions.get(&s("near")), Some(&(10 * NEAR + 1)));
    assert_eq!(sale.bids.len(), 1);
}

#[test]
fn resolve_purchase_refuses_overflowing_price() {
    let m = listed_market(1, 1);
    let mut n = listed_market(1, 1);
    let p = n.process_purchase(s("nft"), s("P001"), s("near"), u128::MAX, s("carol")).unwrap();
    assert_eq!(m.resolve_purchase(p.ft_token_id, p.buyer_id, p.sale, u128::MAX), Err(MarketError::ArithmeticOverflow));
}

#[test]
fn process_purchase_needs_a_sale() {
    let mut m = listed_market(1, 1);
    assert!(matches!(
        m.process_purchase(s("nft"), s("P404"), s("near"), 1, s("carol")),
        Err(MarketError::NoSale)
    ));
    let p = m.process_purchase(s("nft"), s("P001"), s("near"), 3, s("carol")).unwrap();
    assert_eq!(p.price, 3);
    assert_eq!(p.approval_id, 7);
}

#[test]
fn listing_then_unlisting_restores_the_indexes() {
    let mut m = Contract::new(s("bob"));
    m.storage_deposit(s("alice"), None, 2 * ONE_SALE).unwrap();
    m.nft_on_approve(s("nft"), s("alice"), 0, s("P001"), s("alice"), 0, Some(near_price(1))).unwrap();
    let owner_before = m.by_owner_id.get(&s("alice")).unwrap().to_vec();
    let nft_before = m.by_nft_contract_id.get(&s("nft")).unwrap().to_vec();
    m.nft_on_approve(s("nft"), s("alice"), 0, s("P002"), s("alice"), 0, Some(near_price(1))).unwrap();
    assert_eq!(m.get_supply_by_owner_id(&s("alice")), 2);
    m.remove_sale(s("alice"), 1, s("nft"), s("P002"), s("near")).unwrap();
    assert_eq!(m.by_owner_id.get(&s("alice")).unwrap().to_vec(), owner_before);
    assert_eq!(m.by_nft_contract_id.get(&s("nft")).unwrap().to_vec(), nft_before);
    assert!(m.get_sale(&s("nft||P001")).is_some());
}

#[test]
fn str_collections_keep_keys_once() {
    let mut map: StrMap<u128> = StrMap::new();
    assert_eq!(map.insert(s("a"), 1), None);
    assert_eq!(map.insert(s("b"), 2), None);
    assert_eq!(map.insert(s("a"), 3), Some(1));
    assert_eq!(map.len(), 2);
    assert_eq!(map.get(&s("a")), Some(&3));
    assert!(map.contains_key(&s("b")));
    assert_eq!(map.remove(&s("b")), Some(2));
    assert_eq!(map.remove(&s("b")), None);
    assert_eq!(map.duplicate().get(&s("a")), Some(&3));
    let mut bids: StrMap<Bid> = StrMap::new();
    bids.insert(s("near"), Bid { owner_id: s("carol"), price: 4 });
    assert_eq!(bids.duplicate_bids().get(&s("near")).map(|b| b.price), Some(4));

    let mut set = StrSet::new();
    assert!(set.insert(s("x")));
    assert!(set.insert(s("y")));
    assert!(set.insert(s("z")));
    assert!(!set.insert(s("x")));
    assert!(set.remove(&s("x")));
    assert_eq!(set.to_vec(), vec![s("z"), s("y")]);
    assert!(!set.remove(&s("x")));
    assert!(set.contains(&s("y")));
    assert!(!set.is_empty());
}

#[test]
fn lower_or_equal_bid_is_refused() {
    let mut m = listed_market(100, 1);
    m.offer(s("carol"), 20 * NEAR, s("nft"), s("P001")).unwrap();
    assert!(matches!(
        m.offer(s("dave"), 20 * NEAR, s("nft"), s("P001")),
        Err(MarketError::BidNotAboveCurrent)
    ));
    assert!(matches!(
        m.offer(s("dave"), 10 * NEAR, s("nft"), s("P001")),
        Err(MarketError::BidNotAboveCurrent)
    ));
    let bid = m.get_sale(&s("nft||P001")).unwrap().bids.get(&s("near")).unwrap().duplicate();
    assert_eq!(bid.owner_id, "carol");
    assert_eq!(bid.price, 20 * NEAR);
}

#[test]
fn add_bid_keeps_a_higher_current_bid() {
    let mut m = listed_market(100, 1);
    let key = s("nft||P001");
    let mut copy = m.get_sale(&key).unwrap().duplicate();
    assert_eq!(m.add_bid(key.clone(), 9, s("near"), s("carol"), &mut copy), None);
    assert_eq!(m.add_bid(key.clone(), 5, s("near"), s("dave"), &mut copy), None);
    assert_eq!(copy.bids.get(&s("near")).map(|b| (b.owner_id.clone(), b.price)), Some((s("carol"), 9)));
    assert_eq!(
        m.add_bid(key.clone(), 12, s("near"), s("dave"), &mut copy),
        Some(Transfer { receiver_id: s("carol"), amount: 9 })
    );
    let stored = m.get_sale(&key).unwrap().bids.get(&s("near")).unwrap().duplicate();
    assert_eq!((stored.owner_id, stored.price), (s("dave"), 12));
}

#[test]
fn removal_leaves_both_indexes() {
    let mut m = Contract::new(s("bob"));
    m.storage_deposit(s("alice"), None, 2 * ONE_SALE).unwrap();
    m.nft_on_approve(s("nft"), s("alice"), 0, s("P001"), s("alice"), 0, Some(near_price(1))).unwrap();
    m.nft_on_approve(s("nft"), s("alice"), 0, s("P002"), s("alice"), 0, Some(near_price(1))).unwrap();
    m.remove_sale(s("alice"), 1, s("nft"), s("P001"), s("near")).unwrap();
    assert!(!m.by_owner_id.get(&s("alice")).unwrap().contains(&s("nft||P001")));
    assert!(!m.by_nft_contract_id.get(&s("nft")).unwrap().contains(&s("P001")));
    assert!(m.check_wf());
}

#[test]
fn check_wf_tells_consistent_states() {
    let m = listed_market(100, 1);
    assert!(m.check_wf());
    assert!(Contract::new(s("bob")).check_wf());
    // A sale that neither index knows of.
    let mut broken = Contract::new(s("bob"));
    let sale = listed_market(100, 1).sales.remove(&s("nft||P001")).unwrap();
    broken.sales.insert(s("nft||P001"), sale);
    assert!(!broken.check_wf());
    // An index holding an empty set.
    let mut empty_set = Contract::new(s("bob"));
    empty_set.by_owner_id.insert(s("alice"), StrSet::new());
    assert!(!empty_set.check_wf());
}

#[test]
fn storage_keeps_paying_for_sales() {
    let mut m = Contract::new(s("bob"));
    m.storage_deposit(s("alice"), None, 2 * ONE_SALE).unwrap();
    m.nft_on_approve(s("nft"), s("alice"), 0, s("P001"), s("alice"), 0, Some(near_price(1))).unwrap();
    m.nft_on_approve(s("nft"), s("alice"), 0, s("P002"), s("alice"), 0, Some(near_price(1))).unwrap();
    // Two sales, two sales' worth of deposit: nothing to withdraw.
    assert_eq!(m.storage_withdraw(s("alice"), 1), Ok(None));
    assert_eq!(m.storage_balance_of(s("alice")), 2 * ONE_SALE);
    assert!(m.get_supply_by_owner_id(&s("alice")) as u128 * ONE_SALE <= m.storage_balance_of(s("alice")));
    m.remove_sale(s("alice"), 1, s("nft"), s("P002"), s("near")).unwrap();
    assert_eq!(
        m.storage_withdraw(s("alice"), 1),
        Ok(Some(Transfer { receiver_id: s("alice"), amount: ONE_SALE }))
    );
    assert_eq!(m.storage_balance_of(s("alice")), ONE_SALE);
}
