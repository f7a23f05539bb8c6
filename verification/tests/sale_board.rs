use fans_token::contract::{Context, Contract, Event};
use fans_token::error::Error;
use fans_token::metadata::Metadata;
use fans_token::registry::{Config, TokenRegistry};
use fans_token::sale::{Sale, SaleBoard};

fn name(text: &str) -> String {
    text.to_string()
}

fn home() -> String {
    name("market.near")
}

fn call(predecessor: &str, deposit: u128, now: u64) -> Context {
    Context {
        current_account_id: home(),
        predecessor_account_id: name(predecessor),
        attached_deposit: deposit,
        block_timestamp: now,
        storage_byte_cost: 1,
        initial_storage: 0,
        final_storage: 0,
        promise_results: Vec::new(),
    }
}

fn rules() -> Config {
    Config { single_ownership: false, owner_only_mint: false, transfer_lock_seconds: None }
}

/// A contract without a transfer lock, set up, with a token `fan001` of `a.near`.
fn market() -> Contract {
    let mut contract = Contract::with_config(&call("deployer.near", 0, 0), name("devbot.near"), rules());
    contract.initialize(&call("deployer.near", 0, 0)).unwrap();
    contract
        .nft_mint_callback(&call(&home(), 0, 0), name("a.near"), Metadata::empty(), name("g"))
        .unwrap();
    contract
}

#[test]
fn purchase_pays_the_price_and_returns_the_excess() {
    let mut contract = market();
    contract.offer(&call("a.near", 0, 0), name("fan001"), 1000).unwrap();
    let receipt = contract.buy(&call("b.near", 1050, 0), name("fan001")).unwrap();
    assert_eq!(receipt.payout.to, "a.near");
    assert_eq!(receipt.payout.amount, 1000);
    let refund = receipt.refund.unwrap();
    assert_eq!(refund.to, "b.near");
    assert_eq!(refund.amount, 50);
    assert_eq!(
        receipt.event,
        Event::Transfer {
            old_owner_id: name("a.near"),
            new_owner_id: name("b.near"),
            token_id: name("fan001"),
            authorized_id: None,
            memo: None,
        }
    );
    assert_eq!(contract.nft_token(name("fan001")).unwrap().owner_id, "b.near");
    assert_eq!(contract.sale(name("fan001")), None);
}

#[test]
fn purchase_with_the_price_and_one_unit_returns_nothing() {
    let mut contract = market();
    contract.offer(&call("a.near", 0, 0), name("fan001"), 1000).unwrap();
    let receipt = contract.buy(&call("b.near", 1001, 0), name("fan001")).unwrap();
    assert_eq!(receipt.payout.amount, 1000);
    assert_eq!(receipt.refund, None);
}

#[test]
fn purchase_with_two_units_more_returns_both() {
    let mut contract = market();
    contract.offer(&call("a.near", 0, 0), name("fan001"), 1000).unwrap();
    let receipt = contract.buy(&call("b.near", 1002, 0), name("fan001")).unwrap();
    assert_eq!(receipt.payout.amount, 1000);
    assert_eq!(receipt.refund.unwrap().amount, 2);
}

#[test]
fn purchase_below_the_price_and_its_margin_is_refused() {
    let mut contract = market();
    contract.offer(&call("a.near", 0, 0), name("fan001"), 1000).unwrap();
    assert_eq!(
        contract.buy(&call("b.near", 999, 0), name("fan001")).unwrap_err(),
        Error::InsufficientPayment
    );
    assert_eq!(
        contract.buy(&call("b.near", 1000, 0), name("fan001")).unwrap_err(),
        Error::InsufficientPayment
    );
    assert_eq!(contract.nft_token(name("fan001")).unwrap().owner_id, "a.near");
    assert_eq!(contract.sale(name("fan001")), Some(Sale { seller: name("a.near"), price: 1000 }));
}

#[test]
fn purchase_at_the_highest_price_is_never_covered() {
    let mut contract = market();
    contract.offer(&call("a.near", 0, 0), name("fan001"), u128::MAX).unwrap();
    assert_eq!(
        contract.buy(&call("b.near", u128::MAX, 0), name("fan001")).unwrap_err(),
        Error::InsufficientPayment
    );
}

#[test]
fn purchase_of_what_is_not_listed_is_refused() {
    let mut contract = market();
    assert_eq!(
        contract.buy(&call("b.near", 5000, 0), name("fan001")).unwrap_err(),
        Error::NotFound
    );
}

#[test]
fn transfer_ends_the_sale() {
    let mut contract = market();
    contract.offer(&call("a.near", 0, 0), name("fan001"), 1000).unwrap();
    contract.nft_transfer(&call("a.near", 1, 0), name("c.near"), name("fan001"), None, None).unwrap();
    assert_eq!(contract.sale(name("fan001")), None);
    assert_eq!(
        contract.buy(&call("b.near", 5000, 0), name("fan001")).unwrap_err(),
        Error::NotFound
    );
}

#[test]
fn transfer_with_notice_ends_the_sale() {
    let mut contract = market();
    contract.offer(&call("a.near", 0, 0), name("fan001"), 1000).unwrap();
    contract
        .nft_transfer_call(&call("a.near", 1, 0), name("c.near"), name("fan001"), None, None, name("m"))
        .unwrap();
    assert_eq!(
        contract.buy(&call("b.near", 5000, 0), name("fan001")).unwrap_err(),
        Error::NotFound
    );
}

#[test]
fn purchase_ends_the_sale() {
    let mut contract = market();
    contract.offer(&call("a.near", 0, 0), name("fan001"), 1000).unwrap();
    contract.buy(&call("b.near", 1001, 0), name("fan001")).unwrap();
    assert_eq!(
        contract.buy(&call("c.near", 5000, 0), name("fan001")).unwrap_err(),
        Error::NotFound
    );
}

#[test]
fn burn_ends_the_sale() {
    let mut contract = market();
    contract.offer(&call("a.near", 0, 0), name("fan001"), 1000).unwrap();
    contract.nft_burn(&call("a.near", 0, 0), name("fan001")).unwrap();
    contract
        .nft_mint_callback(&call(&home(), 0, 0), name("a.near"), Metadata::empty(), name("g"))
        .unwrap();
    assert_eq!(contract.nft_token(name("fan001")).unwrap().owner_id, "a.near");
    assert_eq!(
        contract.buy(&call("b.near", 5000, 0), name("fan001")).unwrap_err(),
        Error::NotFound
    );
}

#[test]
fn offers_are_for_the_owner_to_make_and_the_seller_to_withdraw() {
    let mut contract = market();
    assert_eq!(
        contract.offer(&call("b.near", 0, 0), name("fan001"), 10).unwrap_err(),
        Error::Unauthorized
    );
    assert_eq!(
        contract.offer(&call("a.near", 0, 0), name("fan404"), 10).unwrap_err(),
        Error::NotFound
    );
    assert_eq!(
        contract.remove_offer(&call("a.near", 0, 0), name("fan001")).unwrap_err(),
        Error::NotFound
    );
    contract.offer(&call("a.near", 0, 0), name("fan001"), 10).unwrap();
    contract.offer(&call("a.near", 0, 0), name("fan001"), 20).unwrap();
    assert_eq!(contract.sale(name("fan001")), Some(Sale { seller: name("a.near"), price: 20 }));
    assert_eq!(
        contract.remove_offer(&call("b.near", 0, 0), name("fan001")).unwrap_err(),
        Error::Unauthorized
    );
    contract.remove_offer(&call("a.near", 0, 0), name("fan001")).unwrap();
    assert_eq!(contract.sale(name("fan001")), None);
}

#[test]
fn purchase_follows_the_rules_of_a_transfer() {
    let strict = Config {
        single_ownership: true,
        owner_only_mint: false,
        transfer_lock_seconds: Some(10),
    };
    let mut contract = Contract::with_config(&call("deployer.near", 0, 0), name("devbot.near"), strict);
    contract.initialize(&call("deployer.near", 0, 0)).unwrap();
    contract
        .nft_mint_callback(&call(&home(), 0, 0), name("a.near"), Metadata::empty(), name("g"))
        .unwrap();
    contract
        .nft_mint_callback(&call(&home(), 0, 0), name("b.near"), Metadata::empty(), name("g"))
        .unwrap();
    contract.offer(&call("a.near", 0, 0), name("fan001"), 100).unwrap();
    let late = 10_000_000_000;
    assert_eq!(
        contract.buy(&call("c.near", 200, late - 1), name("fan001")).unwrap_err(),
        Error::TransferLocked
    );
    assert_eq!(
        contract.buy(&call("b.near", 200, late), name("fan001")).unwrap_err(),
        Error::DuplicateOwnership
    );
    assert_eq!(contract.sale(name("fan001")), Some(Sale { seller: name("a.near"), price: 100 }));
    contract.buy(&call("c.near", 200, late), name("fan001")).unwrap();
    assert_eq!(contract.nft_token(name("fan001")).unwrap().owner_id, "c.near");
}

#[test]
fn a_listing_left_behind_by_a_bare_transfer_is_stale() {
    let mut registry = TokenRegistry::new(home(), rules());
    registry.mint(&home(), name("a.near"), Metadata::empty(), 0, name("t")).unwrap();
    let mut board = SaleBoard::new();
    board.offer(&registry, &name("a.near"), name("fan000"), 100).unwrap();
    registry.transfer(&name("a.near"), name("c.near"), &name("fan000"), None, 0).unwrap();

    assert_eq!(
        board.check_buy(&registry, &name("b.near"), &name("fan000"), 500, 0),
        Err(Error::StaleListing)
    );
    let refused = board.buy(&mut registry, name("b.near"), &name("fan000"), 500, 0);
    assert_eq!(refused.unwrap_err(), Error::StaleListing);
    assert_eq!(registry.token(&name("fan000")).unwrap().owner_id, "c.near");
    assert!(board.listing(&name("fan000")).is_some());

    registry.burn(&name("c.near"), &name("fan000")).unwrap();
    let refused = board.buy(&mut registry, name("b.near"), &name("fan000"), 500, 0);
    assert_eq!(refused.unwrap_err(), Error::StaleListing);

    board.invalidate(&name("fan000"));
    let refused = board.buy(&mut registry, name("b.near"), &name("fan000"), 500, 0);
    assert_eq!(refused.unwrap_err(), Error::NotFound);
}

#[test]
fn a_purchase_on_the_board_hands_back_the_terms() {
    let mut registry = TokenRegistry::new(home(), rules());
    registry.mint(&home(), name("a.near"), Metadata::empty(), 0, name("t")).unwrap();
    let mut board = SaleBoard::new();
    board.offer(&registry, &name("a.near"), name("fan000"), 100).unwrap();
    let purchase = board.buy(&mut registry, name("b.near"), &name("fan000"), 101, 0).unwrap();
    assert_eq!(purchase.seller, "a.near");
    assert_eq!(purchase.price, 100);
    assert_eq!(purchase.refund, 0);
    assert_eq!(board.remove(&name("a.near"), &name("fan000")), Err(Error::NotFound));
}
