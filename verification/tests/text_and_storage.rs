use fans_token::allocator::IdentifierAllocator;
use fans_token::approval::{Approvals, Grant};
use fans_token::contract::mint_refusal_message;
use fans_token::error::Error;
use fans_token::guard::AuthorizationGuard;
use fans_token::metadata::{copy_bytes, copy_text, ContractMetadata, Metadata};
use fans_token::storage::refund;
use fans_token::text::{group_of_account, parse_token_id, token_id_for, MAX_SUPPLY};

fn name(text: &str) -> String {
    text.to_string()
}

#[test]
fn identifiers_are_written_with_three_digits() {
    assert_eq!(token_id_for(0), "fan000");
    assert_eq!(token_id_for(7), "fan007");
    assert_eq!(token_id_for(42), "fan042");
    assert_eq!(token_id_for(100), "fan100");
    assert_eq!(token_id_for(909), "fan909");
    assert_eq!(token_id_for(999), "fan999");
    assert_eq!(MAX_SUPPLY, 1000);
}

#[test]
fn identifiers_are_read_back() {
    for serial in 0..1000u64 {
        assert_eq!(parse_token_id(&token_id_for(serial)), Some(serial));
        assert_eq!(token_id_for(serial), format!("fan{:03}", serial));
    }
    assert_eq!(parse_token_id(&name("fan01")), None);
    assert_eq!(parse_token_id(&name("fan0001")), None);
    assert_eq!(parse_token_id(&name("fam001")), None);
    assert_eq!(parse_token_id(&name("Fan001")), None);
    assert_eq!(parse_token_id(&name("fan0a1")), None);
    assert_eq!(parse_token_id(&name("fan00١")), None);
    assert_eq!(parse_token_id(&name("fan+01")), None);
    assert_eq!(parse_token_id(&name("")), None);
    assert_eq!(parse_token_id(&name("fänn01")), None);
}

#[test]
fn the_group_of_an_account() {
    assert_eq!(group_of_account(&name("theosis.1000fans.near")), "theosis");
    assert_eq!(group_of_account(&name("a.b.1000fans.near")), "a.b");
    assert_eq!(group_of_account(&name(".1000fans.near")), "");
    assert_eq!(group_of_account(&name("1000fans.near")), "default");
    assert_eq!(group_of_account(&name("theosis.1000fans.near.x")), "default");
    assert_eq!(group_of_account(&name("alice")), "default");
    assert_eq!(group_of_account(&name("")), "default");
    assert_eq!(group_of_account(&name("thé.1000fans.near")), "thé");
}

#[test]
fn storage_is_paid_from_the_deposit() {
    assert_eq!(refund(100, 150, 10, 700), Ok((500, 200)));
    assert_eq!(refund(100, 150, 10, 500), Ok((500, 0)));
    assert_eq!(refund(100, 150, 10, 499), Err(Error::InsufficientDeposit));
    assert_eq!(refund(100, 100, 10, 0), Ok((0, 0)));
    assert_eq!(refund(0, 1, 0, 0), Ok((0, 0)));
    assert_eq!(refund(0, 1, 1, 0), Err(Error::InsufficientDeposit));
}

#[test]
fn storage_that_shrank_costs_nothing() {
    assert_eq!(refund(150, 100, 10, 700), Ok((0, 700)));
    assert_eq!(refund(u64::MAX, 0, u128::MAX, 3), Ok((0, 3)));
}

#[test]
fn a_cost_beyond_all_currency_is_never_covered() {
    assert_eq!(refund(0, 2, u128::MAX, u128::MAX), Err(Error::InsufficientDeposit));
    assert_eq!(refund(0, 1, u128::MAX, u128::MAX), Ok((u128::MAX, 0)));
    assert_eq!(refund(0, u64::MAX, u128::MAX / 2, u128::MAX), Err(Error::InsufficientDeposit));
}

#[test]
fn refusals_have_a_text() {
    assert_eq!(Error::NotFound.message(), "Not found");
    assert_eq!(Error::Unauthorized.message(), "Caller is not authorized");
    assert_eq!(Error::DuplicateOwnership.message(), "Account already owns a token");
    assert_eq!(Error::CapacityExceeded.message(), "Cannot mint more than 1000 tokens");
    assert_eq!(Error::InsufficientDeposit.message(), "Insufficient deposit");
    assert_eq!(Error::InsufficientPayment.message(), "Insufficient payment");
    assert_eq!(Error::ApprovalMismatch.message(), "Approval id does not match");
    assert_eq!(
        Error::TransferLocked.message(),
        "Transfer not allowed until one year after mint"
    );
    assert_eq!(Error::StaleListing.message(), "Listing no longer matches the token owner");
    assert_eq!(Error::AlreadyInitialized.message(), "Already initialized");
    assert_eq!(Error::NotInitialized.message(), "Contract not initialized");
    assert_eq!(mint_refusal_message(Error::NotInitialized), "Contract not initialized");
    assert_eq!(mint_refusal_message(Error::CapacityExceeded), "Cannot mint more than 1000 tokens");
    assert_eq!(mint_refusal_message(Error::DuplicateOwnership), "Account already owns a token");
    assert_eq!(
        mint_refusal_message(Error::Unauthorized),
        "Only contract owner or authorized agents can mint"
    );
}

#[test]
fn the_standard_record_of_the_registry_is_valid() {
    let standard = ContractMetadata::standard();
    assert_eq!(standard.spec, "nft-1.0.0");
    assert_eq!(standard.name, "1000fans");
    assert_eq!(standard.symbol, "1000F");
    assert!(standard.is_valid());
    assert_eq!(standard.duplicate(), standard);

    let mut other = ContractMetadata::standard();
    other.spec = name("nft-2.0.0");
    assert!(!other.is_valid());

    let mut other = ContractMetadata::standard();
    other.reference = Some(name("https://example.org"));
    assert!(!other.is_valid());
    other.reference_hash = Some(vec![0; 31]);
    assert!(!other.is_valid());
    other.reference_hash = Some(vec![0; 32]);
    assert!(other.is_valid());
    other.reference = None;
    assert!(!other.is_valid());
}

#[test]
fn metadata_is_copied_and_stamped() {
    let mut metadata = Metadata::empty();
    assert_eq!(metadata, Metadata::empty());
    metadata.title = Some(name("t"));
    metadata.reference_hash = Some(vec![9, 8, 7]);
    metadata.expires_at = Some(name("later"));
    assert_eq!(metadata.duplicate(), metadata);
    let stamped = metadata.duplicate().stamp(5, name("tag"));
    assert_eq!(stamped.issued_at, Some(5));
    assert_eq!(stamped.extra.as_deref(), Some("tag"));
    assert_eq!(stamped.title, metadata.title);
    assert_eq!(stamped.reference_hash, metadata.reference_hash);
    assert_eq!(stamped.expires_at, metadata.expires_at);
    assert_eq!(copy_text(&Some(name("x"))), Some(name("x")));
    assert_eq!(copy_text(&None), None);
    assert_eq!(copy_bytes(&vec![1, 2, 3]), vec![1, 2, 3]);
    assert_eq!(copy_bytes(&Vec::new()), Vec::<u8>::new());
}

#[test]
fn the_allocator_names_before_it_takes() {
    let mut allocator = IdentifierAllocator::new();
    assert_eq!(allocator.allocate(), Ok(0));
    assert_eq!(allocator.allocate(), Ok(0));
    assert_eq!(allocator.count(), 0);
    allocator.commit(0);
    assert_eq!(allocator.count(), 1);
    assert_eq!(allocator.allocate(), Ok(1));
    allocator.commit(1);
    allocator.commit(2);
    allocator.retire(2);
    allocator.retire(0);
    assert_eq!(allocator.count(), 1);
    assert_eq!(allocator.retired_count(), 2);
    assert!(allocator.is_retired(0));
    assert!(allocator.is_retired(2));
    assert!(!allocator.is_retired(1));
    assert_eq!(allocator.allocate(), Ok(0));
    allocator.commit(0);
    assert!(!allocator.is_retired(0));
    assert_eq!(allocator.allocate(), Ok(2));
    allocator.commit(2);
    assert_eq!(allocator.retired_count(), 0);
    assert_eq!(allocator.allocate(), Ok(3));
}

#[test]
fn the_allocator_refuses_beyond_the_supply() {
    let mut allocator = IdentifierAllocator::new();
    for serial in 0..1000 {
        assert_eq!(allocator.allocate(), Ok(serial));
        allocator.commit(serial);
    }
    assert_eq!(allocator.allocate(), Err(Error::CapacityExceeded));
    allocator.retire(123);
    assert_eq!(allocator.allocate(), Ok(123));
    allocator.commit(123);
    assert_eq!(allocator.allocate(), Err(Error::CapacityExceeded));
    assert_eq!(allocator.count(), 1000);
}

#[test]
fn approvals_of_one_token() {
    let mut approvals = Approvals::new();
    assert_eq!(approvals.next(), 1);
    assert_eq!(approvals.approve(name("x")), 1);
    assert_eq!(approvals.approve(name("y")), 2);
    assert_eq!(approvals.approve(name("x")), 3);
    assert_eq!(approvals.approval_of(&name("x")), Some(3));
    assert_eq!(approvals.approval_of(&name("y")), Some(2));
    assert_eq!(approvals.approval_of(&name("z")), None);
    assert!(approvals.is_approved(&name("x"), None));
    assert!(approvals.is_approved(&name("x"), Some(3)));
    assert!(!approvals.is_approved(&name("x"), Some(1)));
    assert!(!approvals.is_approved(&name("z"), None));
    let mut listed = approvals.list();
    listed.sort_by(|a, b| a.account_id.cmp(&b.account_id));
    assert_eq!(
        listed,
        vec![
            Grant { account_id: name("x"), approval_id: 3 },
            Grant { account_id: name("y"), approval_id: 2 },
        ]
    );
    approvals.revoke(&name("x"));
    approvals.revoke(&name("x"));
    assert!(!approvals.is_approved(&name("x"), None));
    assert_eq!(approvals.approve(name("x")), 4);
    approvals.revoke_all();
    assert!(approvals.list().is_empty());
    assert_eq!(approvals.next(), 5);
    approvals.restore(&vec![
        Grant { account_id: name("a"), approval_id: 4 },
        Grant { account_id: name("b"), approval_id: 5 },
        Grant { account_id: name("a"), approval_id: 2 },
    ]);
    assert_eq!(approvals.approval_of(&name("a")), Some(2));
    assert_eq!(approvals.approval_of(&name("b")), None);
    assert_eq!(approvals.next(), 5);
}

#[test]
fn the_guard_knows_the_owner_and_the_agents() {
    let mut guard = AuthorizationGuard::new(name("owner.near"));
    assert_eq!(guard.owner_id(), "owner.near");
    assert!(guard.is_owner(&name("owner.near")));
    assert!(!guard.is_owner(&name("agent.near")));
    assert!(!guard.is_agent(&name("owner.near")));
    assert!(guard.can_mint(&name("owner.near")));
    assert!(!guard.can_mint(&name("agent.near")));
    assert_eq!(guard.add_agent(&name("agent.near"), name("agent.near")), Err(Error::Unauthorized));
    assert!(!guard.is_agent(&name("agent.near")));
    assert_eq!(guard.add_agent(&name("owner.near"), name("agent.near")), Ok(()));
    assert_eq!(guard.add_agent(&name("owner.near"), name("agent.near")), Ok(()));
    assert!(guard.is_agent(&name("agent.near")));
    assert!(guard.can_mint(&name("agent.near")));
    assert!(!guard.can_mint(&name("other.near")));
}
