use fans_token::approval::Grant;
use fans_token::contract::{
    confirmed_by, group_confirmed, transfer_refused, wants_back, Context, Contract, Event,
};
use fans_token::error::Error;
use fans_token::metadata::Metadata;
use fans_token::registry::Config;
use fans_token::sync::{
    Callback, DevbotHandle, ExtDevbot, GasBudget, GroupSyncClient, PromiseOutcome, RemoteCall,
    RemoteMethod,
};

const TERAGAS: u64 = 1_000_000_000_000;
const MILLI: u128 = 1_000_000_000_000_000_000_000;

fn name(text: &str) -> String {
    text.to_string()
}

fn home() -> String {
    name("theosis.1000fans.near")
}

fn call(predecessor: &str) -> Context {
    Context {
        current_account_id: home(),
        predecessor_account_id: name(predecessor),
        attached_deposit: 0,
        block_timestamp: 0,
        storage_byte_cost: 0,
        initial_storage: 0,
        final_storage: 0,
        promise_results: Vec::new(),
    }
}

fn seen(results: Vec<PromiseOutcome>) -> Context {
    let mut ctx = call(&home());
    ctx.promise_results = results;
    ctx
}

fn answer(text: &str) -> PromiseOutcome {
    PromiseOutcome::Successful(text.as_bytes().to_vec())
}

fn unlocked() -> Contract {
    let rules = Config { single_ownership: true, owner_only_mint: false, transfer_lock_seconds: None };
    let mut contract = Contract::with_config(&call("anyone.near"), name("theosis.devbot.near"), rules);
    contract.initialize(&call("anyone.near")).unwrap();
    contract
}

fn service_call(method: RemoteMethod, tgas: u64, milli: u128) -> RemoteCall {
    RemoteCall {
        receiver_id: name("theosis.devbot.near"),
        method,
        gas: GasBudget::Fixed(tgas * TERAGAS),
        deposit: milli * MILLI,
    }
}

#[test]
fn setup_registers_the_group_and_then_joins_it() {
    let mut contract =
        Contract::new(&call("anyone.near"), name("theosis.devbot.near"));
    let chain = contract.initialize(&call("anyone.near")).unwrap().sync;
    assert_eq!(
        chain.calls,
        vec![
            service_call(RemoteMethod::RegisterGroup { group_id: name("theosis") }, 30, 10),
            service_call(
                RemoteMethod::AddGroupMember {
                    group_id: name("theosis"),
                    user_id: name("1000fans.near"),
                },
                50,
                10,
            ),
        ]
    );
    assert_eq!(chain.home_id, home());
    assert_eq!(
        chain.callback,
        Callback::InitGroup { group_id: name("theosis"), agent_id: name("1000fans.near") }
    );
    assert_eq!(chain.callback_gas, 5 * TERAGAS);
    assert_eq!(chain.calls[0].gas, GasBudget::Fixed(30_000_000_000_000));
    assert_eq!(chain.calls[0].deposit, 10_000_000_000_000_000_000_000);
}

#[test]
fn a_registry_outside_the_home_domain_stands_for_the_default_group() {
    let mut ctx = call("anyone.near");
    ctx.current_account_id = name("somewhere.else.near");
    let mut contract = Contract::new(&ctx, name("devbot.near"));
    let receipt = contract.initialize(&ctx).unwrap();
    assert_eq!(
        receipt.sync.callback,
        Callback::InitGroup { group_id: name("default"), agent_id: name("1000fans.near") }
    );
    assert_eq!(receipt.token.metadata.extra.as_deref(), Some("{\"group_id\":\"default\"}"));
    assert_eq!(
        receipt.token.metadata.description.as_deref(),
        Some("Grants access to somewhere.else.near")
    );
    assert_eq!(contract.get_owner(), "somewhere.else.near");
}

#[test]
fn a_mint_request_hands_out_the_look_up_of_the_group() {
    let mut contract = unlocked();
    let mut metadata = Metadata::empty();
    metadata.title = Some(name("kept"));
    let receipt = contract
        .nft_mint(&call(&home()), name("bob"), metadata.clone(), name("theosis"))
        .unwrap();
    let chain = receipt.lookup.unwrap();
    assert_eq!(
        chain.calls,
        vec![service_call(RemoteMethod::GroupsContainsKey { group_id: name("theosis") }, 5, 0)]
    );
    assert_eq!(
        chain.callback,
        Callback::Mint {
            token_owner_id: name("bob"),
            token_metadata: metadata,
            group_id: name("theosis"),
        }
    );
    assert_eq!(chain.callback_gas, 10 * TERAGAS);
    assert_eq!(chain.home_id, home());
    assert_eq!(
        receipt.sync.calls,
        vec![service_call(
            RemoteMethod::AddGroupMember { group_id: name("theosis"), user_id: name("bob") },
            50,
            25,
        )]
    );
    assert_eq!(contract.nft_total_supply(), 2);
}

#[test]
fn a_mint_brings_the_owner_into_the_group() {
    let mut contract = unlocked();
    let receipt = contract
        .nft_mint_callback(&call(&home()), name("bob"), Metadata::empty(), name("theosis"))
        .unwrap();
    assert_eq!(
        receipt.sync.calls,
        vec![service_call(
            RemoteMethod::AddGroupMember { group_id: name("theosis"), user_id: name("bob") },
            50,
            25,
        )]
    );
    assert_eq!(receipt.sync.calls[0].deposit, 25_000_000_000_000_000_000_000);
    assert_eq!(
        receipt.sync.callback,
        Callback::InitGroup { group_id: name("theosis"), agent_id: name("bob") }
    );
    assert_eq!(receipt.sync.callback_gas, 5_000_000_000_000);
}

#[test]
fn a_burn_takes_the_owner_out_of_the_group_in_the_tag() {
    let mut contract = unlocked();
    contract
        .nft_mint_callback(&call(&home()), name("bob"), Metadata::empty(), name("the \"group\""))
        .unwrap();
    let receipt = contract.nft_burn(&call("bob"), name("fan001")).unwrap();
    let chain = receipt.sync.unwrap();
    assert_eq!(
        chain.calls,
        vec![service_call(
            RemoteMethod::RevokeGroupMember {
                group_id: name("the \"group\""),
                user_id: name("bob"),
            },
            10,
            0,
        )]
    );
    assert_eq!(chain.callback, Callback::Burn { token_id: name("fan001") });
    assert_eq!(chain.callback_gas, 5 * TERAGAS);
}

#[test]
fn a_tag_names_its_group_or_none() {
    assert_eq!(Contract::group_of(&None), None);
    assert_eq!(Contract::group_of(&Some(name("{\"group_id\":\"g1\"}"))), Some(name("g1")));
    assert_eq!(
        Contract::group_of(&Some(name(" { \"other\": 1, \"group_id\" : \"g\\u0032\" } "))),
        Some(name("g2"))
    );
    assert_eq!(Contract::group_of(&Some(name("{\"group_id\":7}"))), None);
    assert_eq!(Contract::group_of(&Some(name("{\"group\":\"g1\"}"))), None);
    assert_eq!(Contract::group_of(&Some(name("[\"group_id\"]"))), None);
    assert_eq!(Contract::group_of(&Some(name("not json"))), None);
    assert_eq!(Contract::group_of(&Some(name(""))), None);
}

#[test]
fn reconciliation_reports_and_changes_nothing() {
    let contract = unlocked();
    let before = contract.nft_tokens(None, None);

    let none = seen(Vec::new());
    assert_eq!(contract.init_group_callback(&none, name("theosis"), name("bob")), Vec::<bool>::new());
    assert_eq!(contract.nft_burn_callback(&none, name("fan001")), Vec::<bool>::new());

    let mixed = seen(vec![answer("true"), PromiseOutcome::Failed, answer("")]);
    assert_eq!(
        contract.init_group_callback(&mixed, name("theosis"), name("bob")),
        vec![true, false, true]
    );
    assert_eq!(contract.nft_burn_callback(&mixed, name("fan001")), vec![true, false, true]);
    assert_eq!(GroupSyncClient::reconcile(&mixed.promise_results), vec![true, false, true]);

    assert_eq!(contract.nft_tokens(None, None), before);
    assert_eq!(contract.nft_total_supply(), 1);
    assert_eq!(contract.retired_count(), 0);
}

#[test]
fn the_answer_of_a_group_lookup() {
    assert!(group_confirmed(&Vec::new()));
    assert!(group_confirmed(&vec![answer("true")]));
    assert!(group_confirmed(&vec![answer("\t true \r\n")]));
    assert!(!group_confirmed(&vec![answer("false")]));
    assert!(!group_confirmed(&vec![answer("True")]));
    assert!(!group_confirmed(&vec![answer("true false")]));
    assert!(!group_confirmed(&vec![answer("truetrue")]));
    assert!(!group_confirmed(&vec![answer("tru")]));
    assert!(!group_confirmed(&vec![answer("\"true\"")]));
    assert!(!group_confirmed(&vec![answer("1")]));
    assert!(!group_confirmed(&vec![answer("")]));
    assert!(!group_confirmed(&vec![PromiseOutcome::Failed]));
    assert!(!group_confirmed(&vec![answer("true"), answer("true")]));
    assert!(confirmed_by(Some(true)));
    assert!(!confirmed_by(Some(false)));
    assert!(!confirmed_by(None));
}

#[test]
fn the_answer_of_a_receiver() {
    assert!(transfer_refused(&Vec::new()));
    assert!(transfer_refused(&vec![PromiseOutcome::Failed]));
    assert!(transfer_refused(&vec![answer("true")]));
    assert!(transfer_refused(&vec![answer("nonsense")]));
    assert!(transfer_refused(&vec![answer("")]));
    assert!(!transfer_refused(&vec![answer("false")]));
    assert!(transfer_refused(&vec![answer(" false")]));
    assert!(transfer_refused(&vec![answer("false ")]));
    assert!(!transfer_refused(&vec![answer("false"), PromiseOutcome::Failed]));
    assert!(wants_back(Some(true)));
    assert!(wants_back(None));
    assert!(!wants_back(Some(false)));
}

#[test]
fn a_transfer_with_notice_tells_the_receiver_and_settles_later() {
    let mut contract = unlocked();
    contract
        .nft_mint_callback(&call(&home()), name("bob"), Metadata::empty(), name("theosis"))
        .unwrap();
    contract.nft_approve(&call("bob"), name("fan001"), name("dave"), None).unwrap();
    let receipt = contract
        .nft_transfer_call(
            &call("dave"),
            name("carol"),
            name("fan001"),
            Some(1),
            Some(name("a memo")),
            name("a message"),
        )
        .unwrap();
    assert_eq!(
        receipt.event,
        Event::Transfer {
            old_owner_id: name("bob"),
            new_owner_id: name("carol"),
            token_id: name("fan001"),
            authorized_id: Some(name("dave")),
            memo: Some(name("a memo")),
        }
    );
    assert_eq!(
        receipt.notice.calls,
        vec![RemoteCall {
            receiver_id: name("carol"),
            method: RemoteMethod::OnTransfer {
                sender_id: name("dave"),
                previous_owner_id: name("bob"),
                token_id: name("fan001"),
                msg: name("a message"),
            },
            gas: GasBudget::Remaining,
            deposit: 0,
        }]
    );
    assert_eq!(
        receipt.notice.callback,
        Callback::ResolveTransfer {
            previous_owner_id: name("bob"),
            receiver_id: name("carol"),
            token_id: name("fan001"),
            approvals: vec![Grant { account_id: name("dave"), approval_id: 1 }],
        }
    );
    assert_eq!(receipt.notice.callback_gas, 5 * TERAGAS);
    assert_eq!(receipt.notice.home_id, home());
    assert_eq!(contract.nft_token(name("fan001")).unwrap().owner_id, "carol");
    assert!(!contract.nft_is_approved(name("fan001"), name("dave"), None));
}

#[test]
fn a_transfer_by_its_owner_names_nobody_as_authorized() {
    let mut contract = unlocked();
    contract
        .nft_mint_callback(&call(&home()), name("bob"), Metadata::empty(), name("theosis"))
        .unwrap();
    let receipt = contract
        .nft_transfer(&call("bob"), name("carol"), name("fan001"), None, None)
        .unwrap();
    assert_eq!(receipt.previous_owner_id, "bob");
    assert!(receipt.approvals.is_empty());
    assert_eq!(
        receipt.event,
        Event::Transfer {
            old_owner_id: name("bob"),
            new_owner_id: name("carol"),
            token_id: name("fan001"),
            authorized_id: None,
            memo: None,
        }
    );
}

#[test]
fn settling_a_transfer_is_for_the_registry_itself() {
    let mut contract = unlocked();
    contract
        .nft_mint_callback(&call(&home()), name("bob"), Metadata::empty(), name("theosis"))
        .unwrap();
    contract.nft_transfer(&call("bob"), name("carol"), name("fan001"), None, None).unwrap();
    let refused = contract.nft_resolve_transfer(
        &call("bob"),
        name("bob"),
        name("carol"),
        name("fan001"),
        Vec::new(),
    );
    assert_eq!(refused.unwrap_err(), Error::Unauthorized);
    assert_eq!(contract.nft_token(name("fan001")).unwrap().owner_id, "carol");
}

#[test]
fn settling_a_transfer_gives_the_token_back_unless_the_receiver_keeps_it() {
    let mut contract = unlocked();
    contract
        .nft_mint_callback(&call(&home()), name("bob"), Metadata::empty(), name("theosis"))
        .unwrap();
    contract.nft_approve(&call("bob"), name("fan001"), name("dave"), None).unwrap();
    let receipt = contract
        .nft_transfer_call(&call("bob"), name("carol"), name("fan001"), None, None, name(""))
        .unwrap();
    let approvals = match receipt.notice.callback {
        Callback::ResolveTransfer { approvals, .. } => approvals,
        _ => Vec::new(),
    };
    contract.offer(&call("carol"), name("fan001"), 10).unwrap();

    let kept = seen(vec![answer("false")]);
    let stands = contract
        .nft_resolve_transfer(&kept, name("bob"), name("carol"), name("fan001"), approvals.clone())
        .unwrap();
    assert!(stands);
    assert_eq!(contract.nft_token(name("fan001")).unwrap().owner_id, "carol");
    assert!(contract.sale(name("fan001")).is_some());

    let returned = seen(vec![answer("true")]);
    let stands = contract
        .nft_resolve_transfer(&returned, name("bob"), name("carol"), name("fan001"), approvals)
        .unwrap();
    assert!(!stands);
    assert_eq!(contract.nft_token(name("fan001")).unwrap().owner_id, "bob");
    assert!(contract.nft_is_approved(name("fan001"), name("dave"), Some(1)));
    assert_eq!(contract.sale(name("fan001")), None);
}

#[test]
fn an_approval_with_a_message_tells_the_approved_account() {
    let mut contract = unlocked();
    contract
        .nft_mint_callback(&call(&home()), name("bob"), Metadata::empty(), name("theosis"))
        .unwrap();
    let quiet = contract.nft_approve(&call("bob"), name("fan001"), name("dave"), None).unwrap();
    assert_eq!(quiet.approval_id, 1);
    assert_eq!(quiet.notice, None);
    let told = contract
        .nft_approve(&call("bob"), name("fan001"), name("erin"), Some(name("hello")))
        .unwrap();
    assert_eq!(told.approval_id, 2);
    assert_eq!(
        told.notice,
        Some(RemoteCall {
            receiver_id: name("erin"),
            method: RemoteMethod::OnApprove {
                token_id: name("fan001"),
                owner_id: name("bob"),
                approval_id: 2,
                msg: name("hello"),
            },
            gas: GasBudget::Remaining,
            deposit: 0,
        })
    );
    assert_eq!(contract.next_approval_id(name("fan001")), Some(3));
    assert_eq!(contract.next_approval_id(name("fan002")), None);
    assert_eq!(
        contract.nft_approve(&call("dave"), name("fan001"), name("erin"), None).unwrap_err(),
        Error::Unauthorized
    );
    assert_eq!(
        contract.nft_revoke(&call("dave"), name("fan001"), name("erin")).unwrap_err(),
        Error::Unauthorized
    );
    assert_eq!(
        contract.nft_revoke_all(&call("bob"), name("fan009")).unwrap_err(),
        Error::NotFound
    );
}

#[test]
fn a_handle_describes_calls_with_its_budget() {
    let handle = DevbotHandle::ext(name("devbot.near")).with_static_gas(7).with_attached_deposit(9);
    assert_eq!(
        handle.groups_contains_key(name("g")),
        RemoteCall {
            receiver_id: name("devbot.near"),
            method: RemoteMethod::GroupsContainsKey { group_id: name("g") },
            gas: GasBudget::Fixed(7),
            deposit: 9,
        }
    );
    let plain = DevbotHandle::ext(name("devbot.near"));
    assert_eq!(
        plain.register_group(name("g")),
        RemoteCall {
            receiver_id: name("devbot.near"),
            method: RemoteMethod::RegisterGroup { group_id: name("g") },
            gas: GasBudget::Fixed(0),
            deposit: 0,
        }
    );
    let member = DevbotHandle::ext(name("d.near")).with_static_gas(1);
    assert_eq!(
        member.add_group_member(name("g"), name("u")).method,
        RemoteMethod::AddGroupMember { group_id: name("g"), user_id: name("u") }
    );
    let gone = DevbotHandle::ext(name("d.near")).with_attached_deposit(3);
    let call = gone.revoke_group_member(name("g"), name("u"));
    assert_eq!(
        call.method,
        RemoteMethod::RevokeGroupMember { group_id: name("g"), user_id: name("u") }
    );
    assert_eq!(call.deposit, 3);
}

#[test]
fn a_client_describes_the_chains_of_the_service() {
    let client = GroupSyncClient::new(name("devbot.near"), name("home.near"));
    assert_eq!(client.devbot_id(), "devbot.near");
    let chain = client.revoke_member(&name("g"), &name("u"), &name("fan003"));
    assert_eq!(chain.home_id, "home.near");
    assert_eq!(chain.calls.len(), 1);
    assert_eq!(chain.calls[0].receiver_id, "devbot.near");
    assert_eq!(chain.calls[0].gas, GasBudget::Fixed(10 * TERAGAS));
    assert_eq!(chain.calls[0].deposit, 0);
    let chain = client.register_and_join(&name("g"), &name("u"));
    assert_eq!(chain.calls.len(), 2);
    let chain = client.add_member(&name("g"), &name("u"));
    assert_eq!(chain.calls[0].deposit, 25 * MILLI);
    let chain = client.lookup_group(&name("g"), name("u"), Metadata::empty());
    assert_eq!(chain.calls[0].gas, GasBudget::Fixed(5 * TERAGAS));
}
