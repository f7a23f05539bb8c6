use fans_token::metadata::Metadata;
use fans_token::ownership::OwnershipIndex;
use fans_token::registry::{Config, TokenRegistry};

fn name(text: &str) -> String {
    text.to_string()
}

#[test]
fn the_index_lists_owners_while_they_hold_something() {
    let mut index = OwnershipIndex::new();
    assert!(!index.owns(&name("a")));
    index.add(&name("a"), 3);
    index.add(&name("b"), 1);
    index.add(&name("a"), 7);
    assert!(index.owns(&name("a")));
    assert!(index.owns(&name("b")));
    assert!(!index.owns(&name("c")));
    index.remove(&name("a"), 3);
    assert!(index.owns(&name("a")));
    index.remove(&name("a"), 7);
    assert!(!index.owns(&name("a")));
    assert!(index.owns(&name("b")));
    index.add(&name("a"), 3);
    assert!(index.owns(&name("a")));
    index.remove(&name("b"), 1);
    assert!(!index.owns(&name("b")));
}

#[test]
fn the_index_follows_every_change_of_ownership() {
    let rules = Config { single_ownership: false, owner_only_mint: false, transfer_lock_seconds: None };
    let owner = name("registry.near");
    let mut registry = TokenRegistry::new(owner.clone(), rules);
    let accounts = [name("a"), name("b"), name("c")];
    let agrees = |registry: &TokenRegistry| {
        for account in &accounts {
            let held = registry.tokens_for_owner(account, 0, None).len();
            assert_eq!(registry.owns_token(account), held > 0);
            assert_eq!(registry.supply_for_owner(account) as usize, held);
        }
    };
    agrees(&registry);
    for account in [&accounts[0], &accounts[0], &accounts[1]] {
        registry.mint(&owner, account.clone(), Metadata::empty(), 0, name("t")).unwrap();
        agrees(&registry);
    }
    registry.transfer(&accounts[1], accounts[2].clone(), &name("fan002"), None, 0).unwrap();
    agrees(&registry);
    assert!(!registry.owns_token(&accounts[1]));
    assert!(registry.owns_token(&accounts[2]));
    registry.burn(&accounts[0], &name("fan000")).unwrap();
    agrees(&registry);
    assert!(registry.owns_token(&accounts[0]));
    registry.burn(&owner, &name("fan001")).unwrap();
    agrees(&registry);
    assert!(!registry.owns_token(&accounts[0]));
    let handover =
        registry.transfer(&accounts[2], accounts[0].clone(), &name("fan002"), None, 0).unwrap();
    agrees(&registry);
    assert!(!registry.resolve_transfer(
        accounts[2].clone(),
        &accounts[0],
        &name("fan002"),
        &handover.approvals,
        true
    ));
    agrees(&registry);
    assert!(registry.owns_token(&accounts[2]));
    assert!(!registry.owns_token(&accounts[0]));

    let restored = TokenRegistry::restore(registry.snapshot()).unwrap();
    agrees(&restored);
    assert!(restored.owns_token(&accounts[2]));
    assert!(!restored.owns_token(&accounts[1]));
}
