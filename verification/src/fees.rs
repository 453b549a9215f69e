use vstd::prelude::*;

verus! {

/// Price of one byte of contract storage, in yoctoNEAR.
pub open spec fn spec_storage_byte_cost() -> u128 {
    10_000_000_000_000_000_000u128
}

/// Storage that a seller pays for per listed sale: about a kilobyte.
pub open spec fn spec_storage_per_sale() -> u128 {
    (1000 * spec_storage_byte_cost()) as u128
}

/// The cost of one byte of storage as the NEAR SDK states it.
///
/// `near_sdk::env::storage_byte_cost` returns the mainnet genesis price of
/// one storage byte, `NearToken::from_yoctonear(10_000_000_000_000_000_000)`;
/// this wrapper claims exactly that constant, in yoctoNEAR.
#[verifier::external_body]
fn storage_byte_cost() -> (cost: u128)
    ensures
        cost == spec_storage_byte_cost(),
{
    near_sdk::env::storage_byte_cost().as_yoctonear()
}

/// Storage deposit required per sale (`1000` bytes at the storage byte cost).
pub fn storage_per_sale() -> (amount: u128)
    ensures
        amount == spec_storage_per_sale(),
{
    1000 * storage_byte_cost()
}

/// One NEAR, in yoctoNEAR: sale prices in NEAR are given in whole NEAR.
pub const NEAR: u128 = 1_000_000_000_000_000_000_000_000;

/// The market's fee on a purchase price: 2.5 percent, rounded down.
pub open spec fn spec_service_fee(price: u128) -> int {
    (price * 25) / 1000
}

/// Computes the market's 2.5 percent fee on `price`.
pub fn service_fee_calculate(price: u128) -> (fee: u128)
    requires
        price * 25 <= u128::MAX,
    ensures
        fee == spec_service_fee(price),
        fee <= price,
        fee * 1000 <= price * 25,
        price * 25 < (fee + 1) * 1000,
{
    (price * 25) / 1000
}

} // verus!
