# nft_marketplaces

A marketplace for NEAR non-fungible tokens. Sellers deposit storage, list a
token by approving the market on the token's NFT contract, set prices per
fungible token, and take listings down; buyers bid in NEAR or buy at the
asking price; the seller is paid the price less a 2.5 % market fee.

- `src/` is the market itself, verified with Verus: the state (`Contract`),
  its invariant (every sale is indexed under its owner and its NFT contract,
  no index keeps an empty set), and every operation with a contract that
  states its result, its refusals, and its effect on the state. A refused
  call leaves the state unchanged. `src/laws.rs` proves properties that span
  operations.
- `app/` is the NEAR contract around it: it reads the caller, signer,
  attached deposit and block time, keeps the state in contract storage,
  parses the approval message, sends payments and the NFT transfer with its
  settlement callback, and turns refusals into panics.
- `tests/` runs the market on concrete scenarios.
