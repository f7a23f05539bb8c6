use fans_token::approval::Grant;
use fans_token::error::Error;
use fans_token::metadata::Metadata;
use fans_token::registry::{Config, TokenRegistry};

const SECOND: u64 = 1_000_000_000;

fn owner() -> String {
    "registry.near".to_string()
}

fn name(text: &str) -> String {
    text.to_string()
}

fn open_rules() -> Config {
    Config { single_ownership: false, owner_only_mint: false, transfer_lock_seconds: None }
}

fn strict_rules() -> Config {
    Config { single_ownership: true, owner_only_mint: true, transfer_lock_seconds: Some(60) }
}

fn registry(config: Config) -> TokenRegistry {
    TokenRegistry::new(owner(), config)
}

fn mint(registry: &mut TokenRegistry, to: &str, now: u64) -> String {
    registry
        .mint(&owner(), name(to), Metadata::empty(), now, name("tag"))
        .unwrap()
        .token_id
}

#[test]
fn identifiers_follow_one_another() {
    let mut registry = registry(open_rules());
    assert_eq!(mint(&mut registry, "a.near", 0), "fan000");
    assert_eq!(mint(&mut registry, "a.near", 0), "fan001");
    assert_eq!(mint(&mut registry, "b.near", 0), "fan002");
    assert_eq!(registry.total_supply(), 3);
    assert_eq!(registry.supply_for_owner(&name("a.near")), 2);
    assert_eq!(registry.supply_for_owner(&name("b.near")), 1);
    assert_eq!(registry.supply_for_owner(&name("c.near")), 0);
}

#[test]
fn minted_token_carries_the_stamp() {
    let mut registry = registry(open_rules());
    let mut metadata = Metadata::empty();
    metadata.title = Some(name("a title"));
    metadata.issued_at = Some(1);
    metadata.extra = Some(name("to be replaced"));
    metadata.media_hash = Some(vec![1, 2, 3]);
    let token = registry.mint(&owner(), name("a.near"), metadata, 99, name("tagged")).unwrap();
    assert_eq!(token.metadata.title.as_deref(), Some("a title"));
    assert_eq!(token.metadata.issued_at, Some(99));
    assert_eq!(token.metadata.extra.as_deref(), Some("tagged"));
    assert_eq!(token.metadata.media_hash, Some(vec![1, 2, 3]));
    assert_eq!(token.owner_id, "a.near");
    assert_eq!(registry.token(&name("fan000")), Some(token));
    assert_eq!(registry.token(&name("fan001")), None);
    assert_eq!(registry.token(&name("fan0000")), None);
    assert_eq!(registry.token(&name("FAN000")), None);
}

#[test]
fn retired_identifiers_come_back_lowest_first() {
    let mut registry = registry(open_rules());
    for _ in 0..5 {
        mint(&mut registry, "a.near", 0);
    }
    registry.burn(&name("a.near"), &name("fan003")).unwrap();
    registry.burn(&name("a.near"), &name("fan001")).unwrap();
    assert_eq!(registry.total_supply(), 3);
    assert_eq!(registry.retired_count(), 2);
    assert!(registry.is_retired(&name("fan001")));
    assert!(registry.is_retired(&name("fan003")));
    assert!(!registry.is_retired(&name("fan002")));
    assert!(!registry.is_retired(&name("fan005")));
    assert!(!registry.is_retired(&name("other")));

    assert_eq!(mint(&mut registry, "b.near", 0), "fan001");
    assert!(!registry.is_retired(&name("fan001")));
    assert_eq!(mint(&mut registry, "b.near", 0), "fan003");
    assert_eq!(registry.retired_count(), 0);
    assert_eq!(mint(&mut registry, "b.near", 0), "fan005");
    assert_eq!(registry.total_supply(), 6);
}

#[test]
fn burn_then_mint_brings_the_count_back() {
    let mut registry = registry(open_rules());
    mint(&mut registry, "a.near", 0);
    mint(&mut registry, "b.near", 0);
    let before = registry.total_supply();
    let burned = registry.burn(&name("b.near"), &name("fan001")).unwrap();
    assert_eq!(burned.token_id, "fan001");
    assert_eq!(burned.owner_id, "b.near");
    assert_eq!(registry.total_supply(), before - 1);
    assert_eq!(registry.token(&name("fan001")), None);
    assert_eq!(mint(&mut registry, "c.near", 0), "fan001");
    assert_eq!(registry.total_supply(), before);
    assert_eq!(registry.token(&name("fan001")).unwrap().owner_id, "c.near");
}

#[test]
fn the_supply_is_capped() {
    let mut registry = registry(open_rules());
    for i in 0..1000 {
        let id = mint(&mut registry, "a.near", 0);
        assert_eq!(id, format!("fan{:03}", i));
    }
    assert_eq!(registry.total_supply(), 1000);
    let refused = registry.mint(&owner(), name("a.near"), Metadata::empty(), 0, name("tag"));
    assert_eq!(refused.unwrap_err(), Error::CapacityExceeded);
    assert_eq!(registry.check_mint(&owner(), &name("a.near")), Err(Error::CapacityExceeded));
    assert_eq!(registry.total_supply(), 1000);

    registry.burn(&owner(), &name("fan500")).unwrap();
    assert_eq!(registry.total_supply(), 999);
    assert_eq!(mint(&mut registry, "b.near", 0), "fan500");
    assert_eq!(registry.total_supply(), 1000);
    let refused = registry.mint(&owner(), name("a.near"), Metadata::empty(), 0, name("tag"));
    assert_eq!(refused.unwrap_err(), Error::CapacityExceeded);
}

#[test]
fn minting_is_for_the_owner_and_its_agents() {
    let mut registry = registry(open_rules());
    let refused = registry.mint(&name("x.near"), name("a.near"), Metadata::empty(), 0, name("t"));
    assert_eq!(refused.unwrap_err(), Error::Unauthorized);
    assert!(!registry.can_mint(&name("x.near")));
    assert!(registry.can_mint(&owner()));

    assert_eq!(registry.add_agent(&name("x.near"), name("x.near")), Err(Error::Unauthorized));
    assert!(!registry.is_agent(&name("x.near")));
    registry.add_agent(&owner(), name("x.near")).unwrap();
    assert!(registry.is_agent(&name("x.near")));
    assert!(registry.can_mint(&name("x.near")));
    registry.mint(&name("x.near"), name("a.near"), Metadata::empty(), 0, name("t")).unwrap();
    assert_eq!(registry.total_supply(), 1);
}

#[test]
fn owner_only_minting_leaves_agents_out() {
    let mut registry = registry(strict_rules());
    registry.add_agent(&owner(), name("x.near")).unwrap();
    assert!(registry.is_agent(&name("x.near")));
    assert!(!registry.can_mint(&name("x.near")));
    let refused = registry.mint(&name("x.near"), name("a.near"), Metadata::empty(), 0, name("t"));
    assert_eq!(refused.unwrap_err(), Error::Unauthorized);
    registry.mint(&owner(), name("a.near"), Metadata::empty(), 0, name("t")).unwrap();
}

#[test]
fn one_token_for_each_account_where_the_rules_say_so() {
    let mut registry = registry(strict_rules());
    registry.mint(&owner(), name("a.near"), Metadata::empty(), 0, name("t")).unwrap();
    let refused = registry.mint(&owner(), name("a.near"), Metadata::empty(), 0, name("t"));
    assert_eq!(refused.unwrap_err(), Error::DuplicateOwnership);
    assert!(registry.owns_token(&name("a.near")));
    assert!(!registry.owns_token(&name("b.near")));
    assert_eq!(registry.total_supply(), 1);
}

#[test]
fn burn_is_for_the_token_owner_and_the_registry_owner() {
    let mut registry = registry(open_rules());
    mint(&mut registry, "a.near", 0);
    mint(&mut registry, "a.near", 0);
    assert_eq!(registry.burn(&name("b.near"), &name("fan000")), Err(Error::Unauthorized));
    assert_eq!(registry.burn(&name("a.near"), &name("fan009")), Err(Error::NotFound));
    assert_eq!(registry.check_burn(&name("b.near"), &name("fan000")), Err(Error::Unauthorized));
    assert_eq!(registry.total_supply(), 2);
    registry.burn(&name("a.near"), &name("fan000")).unwrap();
    registry.burn(&owner(), &name("fan001")).unwrap();
    assert_eq!(registry.total_supply(), 0);
    assert_eq!(registry.burn(&owner(), &name("fan001")), Err(Error::NotFound));
}

#[test]
fn transfer_by_the_owner_moves_the_token_and_clears_approvals() {
    let mut registry = registry(open_rules());
    mint(&mut registry, "a.near", 0);
    let id = name("fan000");
    assert_eq!(registry.approve(&name("a.near"), &id, name("x.near")), Ok(1));
    assert!(registry.is_approved(&id, &name("x.near"), None));

    let handover = registry.transfer(&name("a.near"), name("b.near"), &id, None, 0).unwrap();
    assert_eq!(handover.previous_owner, "a.near");
    assert_eq!(handover.approvals, vec![Grant { account_id: name("x.near"), approval_id: 1 }]);
    assert_eq!(registry.token(&id).unwrap().owner_id, "b.near");
    assert!(!registry.is_approved(&id, &name("x.near"), None));
    assert!(!registry.is_approved(&id, &name("x.near"), Some(1)));
    assert!(registry.token(&id).unwrap().approved_account_ids.is_empty());
    assert!(registry.owns_token(&name("b.near")));
    assert!(!registry.owns_token(&name("a.near")));
}

#[test]
fn transfer_by_an_approved_account_needs_the_matching_id() {
    let mut registry = registry(open_rules());
    mint(&mut registry, "a.near", 0);
    let id = name("fan000");
    let refused = registry.transfer(&name("x.near"), name("b.near"), &id, None, 0);
    assert_eq!(refused.unwrap_err(), Error::Unauthorized);

    registry.approve(&name("a.near"), &id, name("y.near")).unwrap();
    let approval_id = registry.approve(&name("a.near"), &id, name("x.near")).unwrap();
    assert_eq!(approval_id, 2);
    let refused = registry.transfer(&name("x.near"), name("b.near"), &id, Some(1), 0);
    assert_eq!(refused.unwrap_err(), Error::ApprovalMismatch);
    assert_eq!(registry.token(&id).unwrap().owner_id, "a.near");
    assert!(registry.is_approved(&id, &name("x.near"), Some(2)));

    registry.transfer(&name("x.near"), name("b.near"), &id, Some(2), 0).unwrap();
    assert_eq!(registry.token(&id).unwrap().owner_id, "b.near");
    assert!(!registry.is_approved(&id, &name("y.near"), None));
}

#[test]
fn transfer_refusals() {
    let mut registry = registry(strict_rules());
    mint(&mut registry, "a.near", 1_000);
    mint(&mut registry, "b.near", 1_000);
    let id = name("fan000");
    let late = 1_000 + 60 * SECOND;

    let refused = registry.transfer(&name("a.near"), name("c.near"), &name("fan007"), None, late);
    assert_eq!(refused.unwrap_err(), Error::NotFound);
    let refused = registry.transfer(&name("a.near"), name("b.near"), &id, None, late);
    assert_eq!(refused.unwrap_err(), Error::DuplicateOwnership);
    let refused = registry.transfer(&name("a.near"), name("a.near"), &id, None, late);
    assert_eq!(refused.unwrap_err(), Error::DuplicateOwnership);
    let refused = registry.transfer(&name("a.near"), name("c.near"), &id, None, late - 1);
    assert_eq!(refused.unwrap_err(), Error::TransferLocked);
    let refused = registry.transfer(&name("a.near"), name("c.near"), &id, None, 0);
    assert_eq!(refused.unwrap_err(), Error::TransferLocked);
    let refused = registry.transfer(&name("x.near"), name("c.near"), &id, None, late);
    assert_eq!(refused.unwrap_err(), Error::Unauthorized);
    assert_eq!(
        registry.check_transfer(&name("a.near"), &name("c.near"), &id, None, late - 1),
        Err(Error::TransferLocked)
    );

    registry.transfer(&name("a.near"), name("c.near"), &id, None, late).unwrap();
    assert_eq!(registry.token(&id).unwrap().owner_id, "c.near");
}

#[test]
fn transfer_to_oneself_is_refused_under_any_rules() {
    let mut registry = registry(open_rules());
    mint(&mut registry, "a.near", 0);
    let refused = registry.transfer(&name("a.near"), name("a.near"), &name("fan000"), None, 0);
    assert_eq!(refused.unwrap_err(), Error::DuplicateOwnership);
}

#[test]
fn approval_ids_only_go_up() {
    let mut registry = registry(open_rules());
    mint(&mut registry, "a.near", 0);
    mint(&mut registry, "a.near", 0);
    let id = name("fan000");
    assert_eq!(registry.next_approval_id(&id), Some(1));
    assert_eq!(registry.approve(&name("a.near"), &id, name("x.near")), Ok(1));
    assert_eq!(registry.approve(&name("a.near"), &id, name("y.near")), Ok(2));
    assert_eq!(registry.approve(&name("a.near"), &id, name("x.near")), Ok(3));
    assert!(registry.is_approved(&id, &name("x.near"), Some(3)));
    assert!(!registry.is_approved(&id, &name("x.near"), Some(1)));
    assert!(registry.is_approved(&id, &name("y.near"), Some(2)));
    assert_eq!(registry.token(&id).unwrap().approved_account_ids.len(), 2);

    registry.revoke(&name("a.near"), &id, &name("x.near")).unwrap();
    assert!(!registry.is_approved(&id, &name("x.near"), None));
    assert_eq!(registry.approve(&name("a.near"), &id, name("x.near")), Ok(4));

    assert_eq!(registry.approve(&name("a.near"), &name("fan001"), name("x.near")), Ok(1));

    registry.burn(&name("a.near"), &id).unwrap();
    assert!(!registry.is_approved(&id, &name("x.near"), None));
    assert_eq!(registry.next_approval_id(&id), None);
    assert_eq!(mint(&mut registry, "b.near", 0), "fan000");
    assert!(!registry.is_approved(&id, &name("x.near"), None));
    assert!(!registry.is_approved(&id, &name("y.near"), None));
    assert_eq!(registry.approve(&name("b.near"), &id, name("z.near")), Ok(5));
}

#[test]
fn approvals_are_for_the_token_owner_to_give_and_take() {
    let mut registry = registry(open_rules());
    mint(&mut registry, "a.near", 0);
    let id = name("fan000");
    assert_eq!(registry.approve(&name("b.near"), &id, name("x.near")), Err(Error::Unauthorized));
    assert_eq!(registry.approve(&owner(), &id, name("x.near")), Err(Error::Unauthorized));
    assert_eq!(
        registry.approve(&name("a.near"), &name("fan404"), name("x.near")),
        Err(Error::NotFound)
    );
    registry.approve(&name("a.near"), &id, name("x.near")).unwrap();
    assert_eq!(registry.revoke(&name("b.near"), &id, &name("x.near")), Err(Error::Unauthorized));
    assert_eq!(registry.revoke_all(&name("b.near"), &id), Err(Error::Unauthorized));
    assert_eq!(registry.revoke_all(&name("a.near"), &name("fan404")), Err(Error::NotFound));
    assert!(registry.is_approved(&id, &name("x.near"), Some(1)));

    assert_eq!(registry.revoke(&name("a.near"), &id, &name("nobody.near")), Ok(()));
    assert!(registry.is_approved(&id, &name("x.near"), Some(1)));
    registry.approve(&name("a.near"), &id, name("y.near")).unwrap();
    registry.revoke_all(&name("a.near"), &id).unwrap();
    assert!(!registry.is_approved(&id, &name("x.near"), None));
    assert!(!registry.is_approved(&id, &name("y.near"), None));
    assert_eq!(registry.revoke_all(&name("a.near"), &id), Ok(()));
    assert!(!registry.is_approved(&name("fan404"), &name("x.near"), None));
}

#[test]
fn a_refused_transfer_goes_back_with_its_approvals() {
    let mut registry = registry(open_rules());
    mint(&mut registry, "a.near", 0);
    let id = name("fan000");
    registry.approve(&name("a.near"), &id, name("x.near")).unwrap();
    registry.approve(&name("a.near"), &id, name("y.near")).unwrap();
    let handover = registry.transfer(&name("a.near"), name("b.near"), &id, None, 0).unwrap();
    assert_eq!(registry.approve(&name("b.near"), &id, name("z.near")), Ok(3));

    let stands =
        registry.resolve_transfer(name("a.near"), &name("b.near"), &id, &handover.approvals, false);
    assert!(stands);
    assert_eq!(registry.token(&id).unwrap().owner_id, "b.near");

    let stands =
        registry.resolve_transfer(name("a.near"), &name("b.near"), &id, &handover.approvals, true);
    assert!(!stands);
    assert_eq!(registry.token(&id).unwrap().owner_id, "a.near");
    assert!(registry.is_approved(&id, &name("x.near"), Some(1)));
    assert!(registry.is_approved(&id, &name("y.near"), Some(2)));
    assert!(!registry.is_approved(&id, &name("z.near"), None));
    assert_eq!(registry.next_approval_id(&id), Some(4));
}

#[test]
fn a_transfer_stands_when_the_token_moved_on_or_is_gone() {
    let mut registry = registry(open_rules());
    mint(&mut registry, "a.near", 0);
    let id = name("fan000");
    registry.transfer(&name("a.near"), name("b.near"), &id, None, 0).unwrap();
    registry.transfer(&name("b.near"), name("c.near"), &id, None, 0).unwrap();
    assert!(registry.resolve_transfer(name("a.near"), &name("b.near"), &id, &Vec::new(), true));
    assert_eq!(registry.token(&id).unwrap().owner_id, "c.near");

    registry.burn(&name("c.near"), &id).unwrap();
    assert!(registry.resolve_transfer(name("b.near"), &name("c.near"), &id, &Vec::new(), true));
    assert_eq!(registry.total_supply(), 0);
}

#[test]
fn a_transfer_stands_when_the_previous_owner_may_not_own_again() {
    let mut registry = registry(Config {
        single_ownership: true,
        owner_only_mint: false,
        transfer_lock_seconds: None,
    });
    mint(&mut registry, "a.near", 0);
    let id = name("fan000");
    registry.transfer(&name("a.near"), name("b.near"), &id, None, 0).unwrap();
    mint(&mut registry, "a.near", 0);
    assert!(registry.resolve_transfer(name("a.near"), &name("b.near"), &id, &Vec::new(), true));
    assert_eq!(registry.token(&id).unwrap().owner_id, "b.near");
}

#[test]
fn restored_approvals_leave_out_ids_never_given() {
    let mut registry = registry(open_rules());
    mint(&mut registry, "a.near", 0);
    let id = name("fan000");
    registry.approve(&name("a.near"), &id, name("x.near")).unwrap();
    registry.transfer(&name("a.near"), name("b.near"), &id, None, 0).unwrap();
    let claimed = vec![
        Grant { account_id: name("x.near"), approval_id: 1 },
        Grant { account_id: name("forged.near"), approval_id: 2 },
        Grant { account_id: name("zero.near"), approval_id: 0 },
    ];
    assert!(!registry.resolve_transfer(name("a.near"), &name("b.near"), &id, &claimed, true));
    assert!(registry.is_approved(&id, &name("x.near"), Some(1)));
    assert!(!registry.is_approved(&id, &name("forged.near"), None));
    assert!(!registry.is_approved(&id, &name("zero.near"), None));
}

#[test]
fn pages_of_tokens() {
    let mut registry = registry(open_rules());
    for owner in ["a.near", "b.near", "a.near", "c.near", "a.near"] {
        mint(&mut registry, owner, 0);
    }
    let ids = |tokens: Vec<fans_token::registry::Token>| -> Vec<String> {
        tokens.into_iter().map(|t| t.token_id).collect()
    };
    assert_eq!(
        ids(registry.tokens(0, None)),
        vec!["fan000", "fan001", "fan002", "fan003", "fan004"]
    );
    assert_eq!(ids(registry.tokens(1, Some(2))), vec!["fan001", "fan002"]);
    assert_eq!(ids(registry.tokens(3, Some(10))), vec!["fan003", "fan004"]);
    assert_eq!(ids(registry.tokens(5, None)), Vec::<String>::new());
    assert_eq!(ids(registry.tokens(9, Some(1))), Vec::<String>::new());
    assert_eq!(ids(registry.tokens(0, Some(0))), Vec::<String>::new());
    assert_eq!(ids(registry.tokens(u64::MAX, Some(u64::MAX))), Vec::<String>::new());

    let a = name("a.near");
    assert_eq!(ids(registry.tokens_for_owner(&a, 0, None)), vec!["fan000", "fan002", "fan004"]);
    assert_eq!(ids(registry.tokens_for_owner(&a, 1, Some(1))), vec!["fan002"]);
    assert_eq!(ids(registry.tokens_for_owner(&a, 2, Some(5))), vec!["fan004"]);
    assert_eq!(ids(registry.tokens_for_owner(&a, 3, None)), Vec::<String>::new());
    assert_eq!(ids(registry.tokens_for_owner(&name("z.near"), 0, None)), Vec::<String>::new());
    assert_eq!(ids(registry.tokens_for_owner(&name("b.near"), 0, Some(3))), vec!["fan001"]);
}

#[test]
fn live_count_is_the_number_of_tokens_and_owners_hold_them_all() {
    let mut registry = registry(open_rules());
    let owners = ["a.near", "b.near", "c.near"];
    for i in 0..30 {
        mint(&mut registry, owners[i % 3], 0);
    }
    for i in [4u32, 9, 17, 22] {
        registry.burn(&owner(), &format!("fan{:03}", i)).unwrap();
    }
    mint(&mut registry, "c.near", 0);
    let all = registry.tokens(0, None);
    assert_eq!(registry.total_supply() as usize, all.len());
    let mut held = 0;
    for account in owners {
        let theirs = registry.tokens_for_owner(&name(account), 0, None);
        assert_eq!(registry.supply_for_owner(&name(account)) as usize, theirs.len());
        for token in &theirs {
            assert_eq!(token.owner_id, account);
            assert!(all.contains(token));
        }
        held += theirs.len();
    }
    assert_eq!(held, all.len());
    for token in &all {
        assert!(!registry.is_retired(&token.token_id));
    }
    let mut ids: Vec<String> = all.iter().map(|t| t.token_id.clone()).collect();
    ids.sort();
    ids.dedup();
    assert_eq!(ids.len(), all.len());
}
