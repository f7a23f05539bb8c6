use vstd::prelude::*;
use crate::approval::{grant_entries, restored, Grant};
use crate::assoc::{keys_distinct, to_map};
use crate::codec::{json_bool, json_false, json_member, json_member_text, json_object, json_object_text, json_true, spells, teragas, GAS_PER_TERAGAS};
use crate::error::Error;
use crate::metadata::{text_of, ContractMetadata, ContractMetadataView, Metadata, MetadataView};
use crate::registry::{page_end, page_start, token_views, Config, RegistrySnapshot, RegistryView, Token, TokenRegistry, TokenView};
use crate::sale::{buy_refusal, listing_entries, purchase_refund, remove_refusal, Listing, Sale, SaleBoard, SaleView};
use crate::storage::{refund, storage_cost};
use crate::sync::{add_member_chain, came_back, lookup_chain, register_and_join_chain, revoke_member_chain, CallChain, CallChainView, Callback, CallbackView, GasBudget, GroupSyncClient, PromiseOutcome, RemoteCall, RemoteCallView, RemoteMethod, RemoteMethodView};
use crate::text::{group_of_account, group_text, id_text};

verus! {

/// What the host tells the registry about the invocation it runs.
#[derive(Clone, Debug, PartialEq, Eq)]
pub struct Context {
    /// The account of the registry itself.
    pub current_account_id: String,
    /// The account that made the call.
    pub predecessor_account_id: String,
    /// The currency that came with the call.
    pub attached_deposit: u128,
    /// The host's clock.
    pub block_timestamp: u64,
    /// The price of one byte of storage.
    pub storage_byte_cost: u128,
    /// The bytes of storage in use before the change of this invocation is written.
    pub initial_storage: u64,
    /// The bytes of storage in use once it is written.
    pub final_storage: u64,
    /// The results of the remote calls that this invocation continues, as far
    /// as the host lets them be seen.
    pub promise_results: Vec<PromiseOutcome>,
}

/// A transfer of currency that the host is to make.
#[derive(Clone, Debug, PartialEq, Eq)]
pub struct Payment {
    pub to: String,
    pub amount: u128,
}

/// What a `Payment` holds.
pub struct PaymentView {
    pub to: Seq<char>,
    pub amount: u128,
}

impl View for Payment {
    type V = PaymentView;

    open spec fn view(&self) -> PaymentView {
        PaymentView { to: self.to@, amount: self.amount }
    }
}

/// What an optional payment holds.
pub open spec fn payment_of(payment: Option<Payment>) -> Option<PaymentView> {
    match payment {
        Some(p) => Some(p@),
        None => None,
    }
}

/// The payment of `amount` to `to`, and none where nothing is owed.
pub open spec fn owed(to: Seq<char>, amount: int) -> Option<PaymentView> {
    if amount > 0 {
        Some(PaymentView { to, amount: amount as u128 })
    } else {
        None
    }
}

/// A notification for those who follow the registry from outside.
#[derive(Clone, Debug, PartialEq, Eq)]
pub enum Event {
    Mint { owner_id: String, token_id: String },
    Burn { owner_id: String, token_id: String, authorized_id: Option<String>, memo: String },
    Transfer {
        old_owner_id: String,
        new_owner_id: String,
        token_id: String,
        authorized_id: Option<String>,
        memo: Option<String>,
    },
}

/// What an `Event` holds.
pub enum EventView {
    Mint { owner_id: Seq<char>, token_id: Seq<char> },
    Burn {
        owner_id: Seq<char>,
        token_id: Seq<char>,
        authorized_id: Option<Seq<char>>,
        memo: Seq<char>,
    },
    Transfer {
        old_owner_id: Seq<char>,
        new_owner_id: Seq<char>,
        token_id: Seq<char>,
        authorized_id: Option<Seq<char>>,
        memo: Option<Seq<char>>,
    },
}

impl View for Event {
    type V = EventView;

    open spec fn view(&self) -> EventView {
        match self {
            Event::Mint { owner_id, token_id } => EventView::Mint {
                owner_id: owner_id@,
                token_id: token_id@,
            },
            Event::Burn { owner_id, token_id, authorized_id, memo } => EventView::Burn {
                owner_id: owner_id@,
                token_id: token_id@,
                authorized_id: text_of(*authorized_id),
                memo: memo@,
            },
            Event::Transfer {
                old_owner_id,
                new_owner_id,
                token_id,
                authorized_id,
                memo,
            } => EventView::Transfer {
                old_owner_id: old_owner_id@,
                new_owner_id: new_owner_id@,
                token_id: token_id@,
                authorized_id: text_of(*authorized_id),
                memo: text_of(*memo),
            },
        }
    }
}

/// What a mint hands back: the token, what its storage cost, what goes back
/// to the caller, the calls that bring the new owner into the group, the
/// notification, and, for a mint made on request, the call that looks the
/// group up.
#[derive(Clone, Debug, PartialEq, Eq)]
pub struct MintReceipt {
    pub token: Token,
    pub storage_cost: u128,
    pub refund: Option<Payment>,
    pub sync: CallChain,
    pub event: Event,
    pub lookup: Option<CallChain>,
}

/// What a burn hands back: the token as it was, the calls that take its owner
/// out of the group, if its metadata names one, and the notification.
#[derive(Clone, Debug, PartialEq, Eq)]
pub struct BurnReceipt {
    pub token: Token,
    pub sync: Option<CallChain>,
    pub event: Event,
}

/// What a transfer hands back: who owned the token, the approvals that were
/// on it, and the notification.
#[derive(Clone, Debug, PartialEq, Eq)]
pub struct TransferReceipt {
    pub previous_owner_id: String,
    pub approvals: Vec<Grant>,
    pub event: Event,
}

/// What a transfer with notice hands back: the call that tells the receiver,
/// followed by the entry that settles the transfer, and the notification.
#[derive(Clone, Debug, PartialEq, Eq)]
pub struct TransferCallReceipt {
    pub notice: CallChain,
    pub event: Event,
}

/// What an approval hands back: its id, and the call that tells the approved
/// account, if a message for it was given.
#[derive(Clone, Debug, PartialEq, Eq)]
pub struct ApproveReceipt {
    pub approval_id: u64,
    pub notice: Option<RemoteCall>,
}

/// What a purchase hands back: the payment to the seller, the payment back to
/// the buyer, if any, and the notification.
#[derive(Clone, Debug, PartialEq, Eq)]
pub struct PurchaseReceipt {
    pub payout: Payment,
    pub refund: Option<Payment>,
    pub event: Event,
}

/// The account that receives the first token and acts as the first agent.
pub open spec fn founding_agent() -> Seq<char> {
    "1000fans.near"@
}

/// The member under which the group of a token is written into its metadata.
pub open spec fn group_key() -> Seq<char> {
    "group_id"@
}

/// The tag that marks a token as belonging to `group_id`.
pub open spec fn group_tag(group_id: Seq<char>) -> Seq<char> {
    json_object_text(group_key(), group_id)
}

/// The group that a tag names, if it names one.
pub open spec fn tagged_group(extra: Option<Seq<char>>) -> Option<Seq<char>> {
    match extra {
        Some(tag) => json_member_text(tag, group_key()),
        None => None,
    }
}

/// The metadata of the first token of the registry at `home`, before it is stamped.
pub open spec fn founding_metadata(home: Seq<char>) -> MetadataView {
    MetadataView {
        title: Some("1000fans Access Token"@),
        description: Some("Grants access to "@ + home),
        media: None,
        media_hash: None,
        copies: Some(1),
        issued_at: None,
        expires_at: None,
        starts_at: None,
        updated_at: None,
        extra: None,
        reference: None,
        reference_hash: None,
    }
}

/// The rules of a registry that was set up without rules of its own: one token
/// for each account, agents may mint, and a token moves no sooner than a year
/// after its issue.
pub open spec fn standard_config() -> Config {
    Config {
        single_ownership: true,
        owner_only_mint: false,
        transfer_lock_seconds: Some(31_536_000u64),
    }
}

/// What a mint is announced to cost, in the smallest units of the currency.
pub const MINT_STORAGE_COST: u128 = 7_000_000_000_000_000_000_000;

/// The longest answer of a receiver that is read at all.
pub const MAX_ANSWER_LENGTH: usize = 5;

/// Whether the results seen by the continuation of a group lookup let the mint
/// go on: the one result says that the group exists, or no result can be seen.
pub open spec fn confirms(results: Seq<PromiseOutcome>) -> bool {
    results.len() == 0 || (results.len() == 1 && (results[0] matches PromiseOutcome::Successful(
        bytes,
    ) && spells(bytes@, json_true())))
}

/// Whether the results seen by the continuation of a transfer with notice ask
/// for the token back: they do unless the receiver's answer is `false`.
pub open spec fn asks_back(results: Seq<PromiseOutcome>) -> bool {
    !(results.len() > 0 && (results[0] matches PromiseOutcome::Successful(bytes) && bytes@.len()
        <= MAX_ANSWER_LENGTH && spells(bytes@, json_false())))
}

/// Tells whether the results of a group lookup let the mint go on.
pub fn group_confirmed(results: &Vec<PromiseOutcome>) -> (confirmed: bool)
    ensures
        confirmed == confirms(results@),
{
    if results.len() == 0 {
        return true;
    }
    if results.len() != 1 {
        return false;
    }
    match &results[0] {
        PromiseOutcome::Successful(bytes) => confirmed_by(json_bool(bytes)),
        PromiseOutcome::Failed => false,
    }
}

/// Whether a lookup that was answered with `answer` found the group.
pub fn confirmed_by(answer: Option<bool>) -> (confirmed: bool)
    ensures
        confirmed == (answer == Some(true)),
{
    match answer {
        Some(found) => found,
        None => false,
    }
}

/// Whether a receiver that answered `answer` wants the token back: it does
/// unless it clearly declined to give it back.
pub fn wants_back(answer: Option<bool>) -> (back: bool)
    ensures
        back == (answer != Some(false)),
{
    match answer {
        Some(back) => back,
        None => true,
    }
}

/// Tells whether the results of a transfer's notice ask for the token back.
pub fn transfer_refused(results: &Vec<PromiseOutcome>) -> (back: bool)
    ensures
        back == asks_back(results@),
{
    if results.len() == 0 {
        return true;
    }
    match &results[0] {
        PromiseOutcome::Successful(bytes) => {
            if bytes.len() > MAX_ANSWER_LENGTH {
                true
            } else {
                wants_back(json_bool(bytes))
            }
        },
        PromiseOutcome::Failed => true,
    }
}

/// What an optional chain of calls holds.
pub open spec fn chain_of(chain: Option<CallChain>) -> Option<CallChainView> {
    match chain {
        Some(c) => Some(c@),
        None => None,
    }
}

/// What an optional remote call holds.
pub open spec fn call_of(call: Option<RemoteCall>) -> Option<RemoteCallView> {
    match call {
        Some(c) => Some(c@),
        None => None,
    }
}

impl Context {
    /// What the storage written by this invocation costs.
    pub open spec fn cost(&self) -> nat {
        storage_cost(self.initial_storage, self.final_storage, self.storage_byte_cost)
    }

    /// Whether the attached deposit covers that cost.
    pub open spec fn covered(&self) -> bool {
        self.cost() <= self.attached_deposit
    }

    /// What goes back to the caller once the cost is taken from the deposit.
    pub open spec fn change(&self) -> Option<PaymentView> {
        owed(self.predecessor_account_id@, self.attached_deposit - self.cost())
    }
}

/// The text with which a mint is refused: for a caller that may not mint, the
/// text that says who may; for any other refusal, the text of the refusal.
pub open spec fn mint_refusal_text(error: Error) -> Seq<char> {
    match error {
        Error::Unauthorized => "Only contract owner or authorized agents can mint"@,
        _ => error.message_text(),
    }
}

/// Writes out the text with which a mint is refused.
pub fn mint_refusal_message(error: Error) -> (text: String)
    ensures
        text@ == mint_refusal_text(error),
{
    match error {
        Error::Unauthorized => String::from_str(
            "Only contract owner or authorized agents can mint",
        ),
        _ => error.message(),
    }
}

/// The state of the whole.
pub struct ContractView {
    pub registry: RegistryView,
    pub listings: Map<Seq<char>, SaleView>,
    /// The account of the membership service.
    pub devbot: Seq<char>,
    /// The account of the registry itself.
    pub home: Seq<char>,
    pub metadata: ContractMetadataView,
    pub initialized: bool,
}

impl ContractView {
    /// Why the one-time setup is refused, if it is.
    pub open spec fn initialize_refusal(self, ctx: Context) -> Option<Error> {
        if self.initialized {
            Some(Error::AlreadyInitialized)
        } else if !ctx.covered() {
            Some(Error::InsufficientDeposit)
        } else {
            None
        }
    }

    /// The stamped metadata of the first token.
    pub open spec fn founding_stamp(self, ctx: Context) -> MetadataView {
        founding_metadata(self.home).stamped(
            ctx.block_timestamp,
            group_tag(group_text(self.home)),
        )
    }

    /// The state after the one-time setup: the founding agent is authorized
    /// and owns the first token.
    pub open spec fn initialized_at(self, ctx: Context) -> ContractView {
        ContractView {
            registry: (RegistryView {
                agents: self.registry.agents.insert(founding_agent()),
                ..self.registry
            }).minted(founding_agent(), self.founding_stamp(ctx)),
            initialized: true,
            ..self
        }
    }

    /// Why a mint for `owner`, asked for by the caller, is refused, if it is:
    /// the setup has not run, the registry refuses the mint, or the deposit
    /// does not cover the storage.
    pub open spec fn mint_request_refusal(self, ctx: Context, owner: Seq<char>) -> Option<Error> {
        if !self.initialized {
            Some(Error::NotInitialized)
        } else if self.registry.mint_refusal(ctx.predecessor_account_id@, owner) is Some {
            self.registry.mint_refusal(ctx.predecessor_account_id@, owner)
        } else if !ctx.covered() {
            Some(Error::InsufficientDeposit)
        } else {
            None
        }
    }

    /// Why the commit of a mint for `owner` is refused, if it is.
    pub open spec fn mint_refusal(self, ctx: Context, owner: Seq<char>) -> Option<Error> {
        if ctx.predecessor_account_id@ != self.home {
            Some(Error::Unauthorized)
        } else if !self.initialized {
            Some(Error::NotInitialized)
        } else if !confirms(ctx.promise_results@) {
            Some(Error::NotFound)
        } else if self.registry.mint_refusal(ctx.predecessor_account_id@, owner) is Some {
            self.registry.mint_refusal(ctx.predecessor_account_id@, owner)
        } else if !ctx.covered() {
            Some(Error::InsufficientDeposit)
        } else {
            None
        }
    }

    /// The stamped metadata of a token minted into `group_id`.
    pub open spec fn stamp(ctx: Context, metadata: MetadataView, group_id: Seq<char>) -> MetadataView {
        metadata.stamped(ctx.block_timestamp, group_tag(group_id))
    }

    /// The state after a token was minted for `owner` into `group_id`.
    pub open spec fn minted(
        self,
        ctx: Context,
        owner: Seq<char>,
        metadata: MetadataView,
        group_id: Seq<char>,
    ) -> ContractView {
        ContractView {
            registry: self.registry.minted(owner, Self::stamp(ctx, metadata, group_id)),
            ..self
        }
    }

    /// The state after the token `id` changed hands or went away: its listing
    /// is gone with it.
    pub open spec fn with_registry(self, registry: RegistryView, id: Seq<char>) -> ContractView {
        ContractView { registry, listings: self.listings.remove(id), ..self }
    }

    /// The notification of a burn of the token `id` by `caller`.
    pub open spec fn burn_event(self, caller: Seq<char>, id: Seq<char>) -> EventView {
        EventView::Burn {
            owner_id: self.registry.records[self.registry.index_of(id)].owner,
            token_id: id,
            authorized_id: if caller == self.registry.owner {
                Some(caller)
            } else {
                None
            },
            memo: if caller == self.registry.owner {
                "Burned by contract owner"@
            } else {
                "Burned by token owner"@
            },
        }
    }

    /// The notification of a transfer of the token `id` to `receiver`, asked
    /// for by `caller` with `memo`.
    pub open spec fn transfer_event(
        self,
        caller: Seq<char>,
        receiver: Seq<char>,
        id: Seq<char>,
        memo: Option<Seq<char>>,
    ) -> EventView {
        let owner = self.registry.records[self.registry.index_of(id)].owner;
        EventView::Transfer {
            old_owner_id: owner,
            new_owner_id: receiver,
            token_id: id,
            authorized_id: if caller != owner {
                Some(caller)
            } else {
                None
            },
            memo,
        }
    }

    /// The state after the token `id` went to `receiver` in a transfer.
    pub open spec fn transferred(self, receiver: Seq<char>, id: Seq<char>) -> ContractView {
        self.with_registry(self.registry.handed_over(id, receiver, Map::empty()), id)
    }

    /// The state after a transfer of the token `id` that waited for the
    /// receiver's answer was settled with the results in `ctx`.
    pub open spec fn resolved(
        self,
        ctx: Context,
        previous_owner: Seq<char>,
        receiver: Seq<char>,
        id: Seq<char>,
        approvals: Seq<(Seq<char>, u64)>,
    ) -> ContractView {
        if self.registry.reverts(previous_owner, receiver, id, asks_back(ctx.promise_results@)) {
            self.with_registry(
                self.registry.handed_over(
                    id,
                    previous_owner,
                    restored(approvals, self.registry.next_approval_id(id)),
                ),
                id,
            )
        } else {
            self
        }
    }

    /// The call that tells `account` that it was approved for the token `id`
    /// by `owner`, if a message for it was given.
    pub open spec fn approval_notice(
        owner: Seq<char>,
        id: Seq<char>,
        account: Seq<char>,
        approval_id: u64,
        msg: Option<Seq<char>>,
    ) -> Option<RemoteCallView> {
        match msg {
            Some(text) => Some(
                RemoteCallView {
                    receiver_id: account,
                    method: RemoteMethodView::OnApprove {
                        token_id: id,
                        owner_id: owner,
                        approval_id,
                        msg: text,
                    },
                    gas: GasBudget::Remaining,
                    deposit: 0,
                },
            ),
            None => None,
        }
    }

    /// The call that tells `receiver` that the token `id` arrived from
    /// `previous_owner` on the word of `sender`.
    pub open spec fn transfer_notice(
        sender: Seq<char>,
        previous_owner: Seq<char>,
        receiver: Seq<char>,
        id: Seq<char>,
        msg: Seq<char>,
    ) -> RemoteCallView {
        RemoteCallView {
            receiver_id: receiver,
            method: RemoteMethodView::OnTransfer {
                sender_id: sender,
                previous_owner_id: previous_owner,
                token_id: id,
                msg,
            },
            gas: GasBudget::Remaining,
            deposit: 0,
        }
    }

    /// The registry is well-formed and belongs to the account it runs under,
    /// and nothing was minted before the one-time setup.
    pub open spec fn wf(self) -> bool {
        &&& self.registry.wf()
        &&& self.registry.owner == self.home
        &&& (!self.initialized ==> self.registry.issued() == 0)
    }
}

/// The state of the whole as plain values, as it is kept between invocations.
#[derive(Clone, Debug, PartialEq, Eq)]
pub struct Snapshot {
    pub registry: RegistrySnapshot,
    pub listings: Vec<Listing>,
    pub devbot_id: String,
    pub home_id: String,
    pub metadata: ContractMetadata,
    pub initialized: bool,
}

impl View for Snapshot {
    type V = ContractView;

    open spec fn view(&self) -> ContractView {
        ContractView {
            registry: self.registry@,
            listings: to_map(listing_entries(self.listings@)),
            devbot: self.devbot_id@,
            home: self.home_id@,
            metadata: self.metadata@,
            initialized: self.initialized,
        }
    }
}

impl Snapshot {
    /// The snapshot holds a well-formed state, its registry is sound, and no
    /// token is listed twice.
    pub open spec fn sound(&self) -> bool {
        &&& self.registry.sound()
        &&& keys_distinct(listing_entries(self.listings@))
        &&& self@.wf()
    }
}

/// The registry with all that belongs to it: the sale board, the client of the
/// membership service, and the record that describes the whole.
pub struct Contract {
    tokens: TokenRegistry,
    sales: SaleBoard,
    sync: GroupSyncClient,
    metadata: ContractMetadata,
    initialized: bool,
}

impl View for Contract {
    type V = ContractView;

    closed spec fn view(&self) -> ContractView {
        ContractView {
            registry: self.tokens@,
            listings: self.sales.listings(),
            devbot: self.sync.devbot(),
            home: self.sync.home(),
            metadata: self.metadata@,
            initialized: self.initialized,
        }
    }
}

impl Contract {
    /// The parts fit together, and the state of the whole is well-formed.
    pub closed spec fn wf(&self) -> bool {
        &&& self.tokens.wf()
        &&& self.sales.wf()
        &&& self@.wf()
    }

    /// The state of a contract that holds together is well-formed.
    pub proof fn lemma_wf(&self)
        requires
            self.wf(),
        ensures
            self@.wf(),
    {
    }

    /// The state of a contract right after it was set up.
    pub open spec fn fresh(home: Seq<char>, devbot: Seq<char>, config: Config) -> ContractView {
        ContractView {
            registry: RegistryView {
                records: Seq::empty(),
                live_count: 0,
                retired: Seq::empty(),
                approvals: Seq::empty(),
                owner: home,
                agents: Set::empty(),
                config,
            },
            listings: Map::empty(),
            devbot,
            home,
            metadata: ContractMetadataView::standard(),
            initialized: false,
        }
    }

    /// Sets up the registry for the account it runs under, with the standard
    /// rules, as a client of the membership service at `devbot_contract`.
    pub fn new(ctx: &Context, devbot_contract: String) -> (contract: Contract)
        ensures
            contract.wf(),
            contract@ == Self::fresh(ctx.current_account_id@, devbot_contract@, standard_config()),
    {
        let config = Config {
            single_ownership: true,
            owner_only_mint: false,
            transfer_lock_seconds: Some(31_536_000u64),
        };
        Self::with_config(ctx, devbot_contract, config)
    }

    /// Sets up the registry for the account it runs under, with rules of its own.
    pub fn with_config(ctx: &Context, devbot_contract: String, config: Config) -> (contract:
        Contract)
        ensures
            contract.wf(),
            contract@ == Self::fresh(ctx.current_account_id@, devbot_contract@, config),
    {
        Contract {
            tokens: TokenRegistry::new(ctx.current_account_id.clone(), config),
            sales: SaleBoard::new(),
            sync: GroupSyncClient::new(devbot_contract, ctx.current_account_id.clone()),
            metadata: ContractMetadata::standard(),
            initialized: false,
        }
    }

    /// The owner of the registry.
    pub fn get_owner(&self) -> (owner: String)
        ensures
            owner@ == self@.registry.owner,
    {
        self.tokens.owner_id().clone()
    }

    /// Tells whether `account_id` is an authorized agent.
    pub fn is_authorized_agent(&self, account_id: String) -> (yes: bool)
        ensures
            yes == self@.registry.agents.contains(account_id@),
    {
        self.tokens.is_agent(&account_id)
    }

    /// What a mint is announced to cost.
    pub fn get_mint_storage_cost(&self) -> (cost: u128)
        ensures
            cost == MINT_STORAGE_COST,
    {
        MINT_STORAGE_COST
    }

    /// Tells whether `account_id` owns a token.
    pub fn owns_token(&self, account_id: String) -> (yes: bool)
        requires
            self.wf(),
        ensures
            yes == self@.registry.owns_any(account_id@),
    {
        self.tokens.owns_token(&account_id)
    }

    /// Tells whether the one-time setup has run.
    pub fn is_initialized(&self) -> (yes: bool)
        ensures
            yes == self@.initialized,
    {
        self.initialized
    }

    /// The record that describes the registry.
    pub fn nft_metadata(&self) -> (metadata: ContractMetadata)
        ensures
            metadata@ == self@.metadata,
    {
        self.metadata.duplicate()
    }

    /// The token `token_id`, if it is live.
    pub fn nft_token(&self, token_id: String) -> (token: Option<Token>)
        requires
            self.wf(),
        ensures
            token is Some <==> self@.registry.has_token(token_id@),
            token matches Some(t) ==> Some(t@) == self@.registry.token(token_id@),
    {
        self.tokens.token(&token_id)
    }

    /// The number of live tokens.
    pub fn nft_total_supply(&self) -> (supply: u128)
        requires
            self.wf(),
        ensures
            supply == self@.registry.records.len(),
            supply == self@.registry.live_count,
    {
        self.tokens.total_supply() as u128
    }

    /// The number of live tokens that `account_id` owns.
    pub fn nft_supply_for_owner(&self, account_id: String) -> (supply: u128)
        requires
            self.wf(),
        ensures
            supply == self@.registry.owned_among(
                account_id@,
                self@.registry.records.len() as int,
            ),
    {
        self.tokens.supply_for_owner(&account_id) as u128
    }

    /// The counter of live tokens.
    pub fn minted_count(&self) -> (count: u64)
        requires
            self.wf(),
        ensures
            count == self@.registry.live_count,
    {
        self.tokens.total_supply()
    }

    /// The number of retired identifiers.
    pub fn retired_count(&self) -> (count: usize)
        ensures
            count == self@.registry.retired.len(),
    {
        self.tokens.retired_count()
    }

    /// Tells whether the identifier `token_id` waits to be used again.
    pub fn is_retired(&self, token_id: String) -> (yes: bool)
        requires
            self.wf(),
        ensures
            yes == self@.registry.retired_ids().contains(token_id@),
    {
        self.tokens.is_retired(&token_id)
    }

    fn settle(ctx: &Context) -> (settled: Result<(u128, Option<Payment>), Error>)
        ensures
            settled is Ok <==> ctx.covered(),
            settled matches Err(e) ==> e == Error::InsufficientDeposit,
            settled matches Ok((cost, back)) ==> cost == ctx.cost() && payment_of(back)
                == ctx.change(),
    {
        match refund(
            ctx.initial_storage,
            ctx.final_storage,
            ctx.storage_byte_cost,
            ctx.attached_deposit,
        ) {
            Err(e) => Err(e),
            Ok((cost, back)) => {
                let payment = if back > 0 {
                    Some(Payment { to: ctx.predecessor_account_id.clone(), amount: back })
                } else {
                    None
                };
                Ok((cost, payment))
            },
        }
    }

    fn tag_for(group_id: &String) -> (tag: String)
        ensures
            tag@ == group_tag(group_id@),
    {
        let key = String::from_str("group_id");
        json_object(&key, group_id)
    }

    /// Runs the one-time setup: authorizes the founding agent, mints the first
    /// token for it, and describes the calls that register the group of the
    /// registry and make the agent a member.  A refused setup changes nothing.
    pub fn initialize(&mut self, ctx: &Context) -> (done: Result<MintReceipt, Error>)
        requires
            old(self).wf(),
        ensures
            final(self).wf(),
            done is Ok <==> old(self)@.initialize_refusal(*ctx) is None,
            done matches Err(e) ==> old(self)@.initialize_refusal(*ctx) == Some(e) && final(self)@
                == old(self)@,
            done matches Ok(receipt) ==> {
                &&& final(self)@ == old(self)@.initialized_at(*ctx)
                &&& receipt.token@ == (TokenView {
                    token_id: id_text(0),
                    owner_id: founding_agent(),
                    metadata: old(self)@.founding_stamp(*ctx),
                    approvals: Map::empty(),
                })
                &&& receipt.storage_cost == ctx.cost()
                &&& payment_of(receipt.refund) == ctx.change()
                &&& receipt.sync@ == register_and_join_chain(
                    old(self)@.devbot,
                    old(self)@.home,
                    group_text(old(self)@.home),
                    founding_agent(),
                )
                &&& receipt.event@ == (EventView::Mint {
                    owner_id: founding_agent(),
                    token_id: id_text(0),
                })
                &&& receipt.lookup is None
            },
    {
        if self.initialized {
            return Err(Error::AlreadyInitialized);
        }
        let (cost, back) = match Self::settle(ctx) {
            Ok(settled) => settled,
            Err(e) => {
                return Err(e);
            },
        };
        let ghost before = self@;
        let home = self.get_owner();
        let group_id = group_of_account(&home);
        let agent = String::from_str("1000fans.near");
        self.tokens.enroll(agent.clone());
        let ghost enrolled = self.tokens@;
        let metadata = Metadata {
            title: Some(String::from_str("1000fans Access Token")),
            description: Some(String::from_str("Grants access to ").concat(home.as_str())),
            media: None,
            media_hash: None,
            copies: Some(1),
            issued_at: None,
            expires_at: None,
            starts_at: None,
            updated_at: None,
            extra: None,
            reference: None,
            reference_hash: None,
        };
        assert(metadata@ == founding_metadata(before.home));
        let tag = Self::tag_for(&group_id);
        proof {
            assert(enrolled.is_next_serial(0));
            enrolled.lemma_next_serial(0);
            assert(!enrolled.owns_any(agent@));
        }
        let token = match self.tokens.mint(&home, agent.clone(), metadata, ctx.block_timestamp, tag) {
            Ok(token) => token,
            Err(e) => {
                return Err(e);
            },
        };
        self.initialized = true;
        let sync = self.sync.register_and_join(&group_id, &agent);
        let event = Event::Mint { owner_id: agent, token_id: token.token_id.clone() };
        Ok(MintReceipt { token, storage_cost: cost, refund: back, sync, event, lookup: None })
    }

    fn admit_request(&self, ctx: &Context, token_owner_id: &String) -> (admitted: Result<
        (u128, Option<Payment>),
        Error,
    >)
        requires
            self.wf(),
        ensures
            admitted is Ok <==> self@.mint_request_refusal(*ctx, token_owner_id@) is None,
            admitted matches Err(e) ==> self@.mint_request_refusal(*ctx, token_owner_id@) == Some(
                e,
            ),
            admitted matches Ok((cost, back)) ==> cost == ctx.cost() && payment_of(back)
                == ctx.change(),
    {
        if !self.initialized {
            return Err(Error::NotInitialized);
        }
        match self.tokens.check_mint(&ctx.predecessor_account_id, token_owner_id) {
            Err(e) => {
                return Err(e);
            },
            Ok(_) => {},
        }
        Self::settle(ctx)
    }

    /// Tells why a mint for `token_owner_id`, asked for by the caller, would
    /// be refused.
    pub fn check_mint_request(&self, ctx: &Context, token_owner_id: &String) -> (checked: Result<
        (),
        Error,
    >)
        requires
            self.wf(),
        ensures
            checked is Ok <==> self@.mint_request_refusal(*ctx, token_owner_id@) is None,
            checked matches Err(e) ==> self@.mint_request_refusal(*ctx, token_owner_id@) == Some(e),
    {
        match self.admit_request(ctx, token_owner_id) {
            Ok(_) => Ok(()),
            Err(e) => Err(e),
        }
    }

    /// Mints a token for `token_owner_id` on the word of the owner of the
    /// registry or of an agent: the token gets the next identifier, the
    /// instant of its issue and the tag of its group, and the deposit pays for
    /// its storage.  The receipt describes the calls that make the owner a
    /// member of the group, and the call that looks the group up, followed by
    /// the entry that commits a mint.  A refused mint changes nothing.
    pub fn nft_mint(
        &mut self,
        ctx: &Context,
        token_owner_id: String,
        token_metadata: Metadata,
        group_id: String,
    ) -> (done: Result<MintReceipt, String>)
        requires
            old(self).wf(),
        ensures
            final(self).wf(),
            done is Ok <==> old(self)@.mint_request_refusal(*ctx, token_owner_id@) is None,
            done matches Err(text) ==> {
                &&& final(self)@ == old(self)@
                &&& old(self)@.mint_request_refusal(*ctx, token_owner_id@) is Some
                &&& text@ == mint_refusal_text(
                    old(self)@.mint_request_refusal(*ctx, token_owner_id@)->Some_0,
                )
            },
            done matches Ok(receipt) ==> {
                &&& final(self)@ == old(self)@.minted(
                    *ctx,
                    token_owner_id@,
                    token_metadata@,
                    group_id@,
                )
                &&& receipt.token@ == old(self)@.registry.minted_token(
                    token_owner_id@,
                    ContractView::stamp(*ctx, token_metadata@, group_id@),
                )
                &&& receipt.storage_cost == ctx.cost()
                &&& payment_of(receipt.refund) == ctx.change()
                &&& receipt.sync@ == add_member_chain(
                    old(self)@.devbot,
                    old(self)@.home,
                    group_id@,
                    token_owner_id@,
                )
                &&& receipt.event@ == (EventView::Mint {
                    owner_id: token_owner_id@,
                    token_id: receipt.token@.token_id,
                })
                &&& chain_of(receipt.lookup) == Some(
                    lookup_chain(
                        old(self)@.devbot,
                        old(self)@.home,
                        group_id@,
                        token_owner_id@,
                        token_metadata@,
                    ),
                )
            },
    {
        let (cost, back) = match self.admit_request(ctx, &token_owner_id) {
            Ok(settled) => settled,
            Err(e) => {
                return Err(mint_refusal_message(e));
            },
        };
        let tag = Self::tag_for(&group_id);
        let sync = self.sync.add_member(&group_id, &token_owner_id);
        let lookup = self.sync.lookup_group(
            &group_id,
            token_owner_id.clone(),
            token_metadata.duplicate(),
        );
        let event_owner = token_owner_id.clone();
        let token = match self.tokens.mint(
            &ctx.predecessor_account_id,
            token_owner_id,
            token_metadata,
            ctx.block_timestamp,
            tag,
        ) {
            Ok(token) => token,
            Err(e) => {
                return Err(mint_refusal_message(e));
            },
        };
        let event = Event::Mint { owner_id: event_owner, token_id: token.token_id.clone() };
        proof {
            self.tokens.lemma_wf();
        }
        Ok(MintReceipt { token, storage_cost: cost, refund: back, sync, event, lookup: Some(lookup) })
    }

    fn admit_mint(&self, ctx: &Context, token_owner_id: &String) -> (admitted: Result<
        (u128, Option<Payment>),
        Error,
    >)
        requires
            self.wf(),
        ensures
            admitted is Ok <==> self@.mint_refusal(*ctx, token_owner_id@) is None,
            admitted matches Err(e) ==> self@.mint_refusal(*ctx, token_owner_id@) == Some(e),
            admitted matches Ok((cost, back)) ==> cost == ctx.cost() && payment_of(back)
                == ctx.change(),
    {
        if ctx.predecessor_account_id != *self.tokens.owner_id() {
            return Err(Error::Unauthorized);
        }
        if !self.initialized {
            return Err(Error::NotInitialized);
        }
        if !group_confirmed(&ctx.promise_results) {
            return Err(Error::NotFound);
        }
        match self.tokens.check_mint(&ctx.predecessor_account_id, token_owner_id) {
            Err(e) => {
                return Err(e);
            },
            Ok(_) => {},
        }
        Self::settle(ctx)
    }

    /// Tells why the commit of a mint for `token_owner_id` would be refused.
    pub fn check_mint(&self, ctx: &Context, token_owner_id: &String) -> (checked: Result<
        (),
        Error,
    >)
        requires
            self.wf(),
        ensures
            checked is Ok <==> self@.mint_refusal(*ctx, token_owner_id@) is None,
            checked matches Err(e) ==> self@.mint_refusal(*ctx, token_owner_id@) == Some(e),
    {
        match self.admit_mint(ctx, token_owner_id) {
            Ok(_) => Ok(()),
            Err(e) => Err(e),
        }
    }

    /// Commits a mint, as the continuation of the group lookup: the token gets
    /// the next identifier, the instant of its issue and the tag of its group,
    /// the deposit pays for its storage, and the calls that make the owner a
    /// member of the group are described.  A refused mint changes nothing.
    pub fn nft_mint_callback(
        &mut self,
        ctx: &Context,
        token_owner_id: String,
        token_metadata: Metadata,
        group_id: String,
    ) -> (done: Result<MintReceipt, Error>)
        requires
            old(self).wf(),
        ensures
            final(self).wf(),
            done is Ok <==> old(self)@.mint_refusal(*ctx, token_owner_id@) is None,
            done matches Err(e) ==> old(self)@.mint_refusal(*ctx, token_owner_id@) == Some(e)
                && final(self)@ == old(self)@,
            done matches Ok(receipt) ==> {
                &&& final(self)@ == old(self)@.minted(
                    *ctx,
                    token_owner_id@,
                    token_metadata@,
                    group_id@,
                )
                &&& receipt.token@ == old(self)@.registry.minted_token(
                    token_owner_id@,
                    ContractView::stamp(*ctx, token_metadata@, group_id@),
                )
                &&& receipt.storage_cost == ctx.cost()
                &&& payment_of(receipt.refund) == ctx.change()
                &&& receipt.sync@ == add_member_chain(
                    old(self)@.devbot,
                    old(self)@.home,
                    group_id@,
                    token_owner_id@,
                )
                &&& receipt.event@ == (EventView::Mint {
                    owner_id: token_owner_id@,
                    token_id: receipt.token@.token_id,
                })
                &&& receipt.lookup is None
            },
    {
        let (cost, back) = match self.admit_mint(ctx, &token_owner_id) {
            Ok(settled) => settled,
            Err(e) => {
                return Err(e);
            },
        };
        let tag = Self::tag_for(&group_id);
        let sync = self.sync.add_member(&group_id, &token_owner_id);
        let event_owner = token_owner_id.clone();
        let token = match self.tokens.mint(
            &ctx.predecessor_account_id,
            token_owner_id,
            token_metadata,
            ctx.block_timestamp,
            tag,
        ) {
            Ok(token) => token,
            Err(e) => {
                return Err(e);
            },
        };
        let event = Event::Mint { owner_id: event_owner, token_id: token.token_id.clone() };
        proof {
            self.tokens.lemma_wf();
        }
        Ok(MintReceipt { token, storage_cost: cost, refund: back, sync, event, lookup: None })
    }

    /// Tells which group the tag in `extra` names, if it names one.
    pub fn group_of(extra: &Option<String>) -> (group_id: Option<String>)
        ensures
            text_of(group_id) == tagged_group(text_of(*extra)),
    {
        match extra {
            Some(tag) => {
                let key = String::from_str("group_id");
                json_member(tag, &key)
            },
            None => None,
        }
    }

    /// Burns the token `token_id` for its owner or for the owner of the
    /// registry, takes its listing off the sale board, and describes the call
    /// that takes the owner out of the group named in the token's metadata.
    /// A refused burn changes nothing.
    pub fn nft_burn(&mut self, ctx: &Context, token_id: String) -> (done: Result<
        BurnReceipt,
        Error,
    >)
        requires
            old(self).wf(),
        ensures
            final(self).wf(),
            done is Ok <==> old(self)@.registry.burn_refusal(
                ctx.predecessor_account_id@,
                token_id@,
            ) is None,
            done matches Err(e) ==> old(self)@.registry.burn_refusal(
                ctx.predecessor_account_id@,
                token_id@,
            ) == Some(e) && final(self)@ == old(self)@,
            done matches Ok(receipt) ==> {
                &&& final(self)@ == old(self)@.with_registry(
                    old(self)@.registry.burned(token_id@),
                    token_id@,
                )
                &&& Some(receipt.token@) == old(self)@.registry.token(token_id@)
                &&& receipt.event@ == old(self)@.burn_event(ctx.predecessor_account_id@, token_id@)
                &&& chain_of(receipt.sync) == match tagged_group(receipt.token@.metadata.extra) {
                    Some(group_id) => Some(
                        revoke_member_chain(
                            old(self)@.devbot,
                            old(self)@.home,
                            group_id,
                            receipt.token@.owner_id,
                            token_id@,
                        ),
                    ),
                    None => None,
                }
            },
    {
        let ghost before = self@;
        let caller = &ctx.predecessor_account_id;
        let token = match self.tokens.burn(caller, &token_id) {
            Ok(token) => token,
            Err(e) => {
                return Err(e);
            },
        };
        self.sales.invalidate(&token_id);
        let by_owner = *caller == *self.tokens.owner_id();
        let event = Event::Burn {
            owner_id: token.owner_id.clone(),
            token_id: token_id.clone(),
            authorized_id: if by_owner {
                Some(caller.clone())
            } else {
                None
            },
            memo: if by_owner {
                String::from_str("Burned by contract owner")
            } else {
                String::from_str("Burned by token owner")
            },
        };
        let sync = match Self::group_of(&token.metadata.extra) {
            Some(group_id) => Some(self.sync.revoke_member(&group_id, &token.owner_id, &token_id)),
            None => None,
        };
        proof {
            before.registry.lemma_index_of(token_id@, before.registry.index_of(token_id@));
        }
        Ok(BurnReceipt { token, sync, event })
    }

    fn move_token(
        &mut self,
        ctx: &Context,
        receiver_id: String,
        token_id: &String,
        approval_id: Option<u64>,
        memo: Option<String>,
    ) -> (done: Result<TransferReceipt, Error>)
        requires
            old(self).wf(),
        ensures
            final(self).wf(),
            done is Ok <==> old(self)@.registry.transfer_refusal(
                ctx.predecessor_account_id@,
                receiver_id@,
                token_id@,
                approval_id,
                ctx.block_timestamp,
            ) is None,
            done matches Err(e) ==> old(self)@.registry.transfer_refusal(
                ctx.predecessor_account_id@,
                receiver_id@,
                token_id@,
                approval_id,
                ctx.block_timestamp,
            ) == Some(e) && final(self)@ == old(self)@,
            done matches Ok(receipt) ==> {
                &&& final(self)@ == old(self)@.transferred(receiver_id@, token_id@)
                &&& receipt.previous_owner_id@ == old(self)@.registry.records[old(
                    self,
                )@.registry.index_of(token_id@)].owner
                &&& to_map(grant_entries(receipt.approvals@)) == old(
                    self,
                )@.registry.granted(token_id@)
                &&& receipt.event@ == old(self)@.transfer_event(
                    ctx.predecessor_account_id@,
                    receiver_id@,
                    token_id@,
                    text_of(memo),
                )
            },
    {
        let caller = &ctx.predecessor_account_id;
        let new_owner = receiver_id.clone();
        let handover = match self.tokens.transfer(
            caller,
            receiver_id,
            token_id,
            approval_id,
            ctx.block_timestamp,
        ) {
            Ok(handover) => handover,
            Err(e) => {
                return Err(e);
            },
        };
        self.sales.invalidate(token_id);
        let authorized_id = if *caller != handover.previous_owner {
            Some(caller.clone())
        } else {
            None
        };
        let event = Event::Transfer {
            old_owner_id: handover.previous_owner.clone(),
            new_owner_id: new_owner,
            token_id: token_id.clone(),
            authorized_id,
            memo,
        };
        proof {
            self.tokens.lemma_wf();
        }
        Ok(
            TransferReceipt {
                previous_owner_id: handover.previous_owner,
                approvals: handover.approvals,
                event,
            },
        )
    }

    /// Transfers the token `token_id` to `receiver_id` for its owner, or for
    /// an account that the owner approved; the approvals and the listing of
    /// the token are cleared.  A refused transfer changes nothing.
    pub fn nft_transfer(
        &mut self,
        ctx: &Context,
        receiver_id: String,
        token_id: String,
        approval_id: Option<u64>,
        memo: Option<String>,
    ) -> (done: Result<TransferReceipt, Error>)
        requires
            old(self).wf(),
        ensures
            final(self).wf(),
            done is Ok <==> old(self)@.registry.transfer_refusal(
                ctx.predecessor_account_id@,
                receiver_id@,
                token_id@,
                approval_id,
                ctx.block_timestamp,
            ) is None,
            done matches Err(e) ==> old(self)@.registry.transfer_refusal(
                ctx.predecessor_account_id@,
                receiver_id@,
                token_id@,
                approval_id,
                ctx.block_timestamp,
            ) == Some(e) && final(self)@ == old(self)@,
            done matches Ok(receipt) ==> {
                &&& final(self)@ == old(self)@.transferred(receiver_id@, token_id@)
                &&& receipt.previous_owner_id@ == old(self)@.registry.records[old(
                    self,
                )@.registry.index_of(token_id@)].owner
                &&& to_map(grant_entries(receipt.approvals@)) == old(
                    self,
                )@.registry.granted(token_id@)
                &&& receipt.event@ == old(self)@.transfer_event(
                    ctx.predecessor_account_id@,
                    receiver_id@,
                    token_id@,
                    text_of(memo),
                )
            },
    {
        self.move_token(ctx, receiver_id, &token_id, approval_id, memo)
    }

    /// Transfers as `nft_transfer` does, and describes the call that tells the
    /// receiver, with the message `msg`, followed by the entry that settles
    /// the transfer once the receiver answered.
    pub fn nft_transfer_call(
        &mut self,
        ctx: &Context,
        receiver_id: String,
        token_id: String,
        approval_id: Option<u64>,
        memo: Option<String>,
        msg: String,
    ) -> (done: Result<TransferCallReceipt, Error>)
        requires
            old(self).wf(),
        ensures
            final(self).wf(),
            done is Ok <==> old(self)@.registry.transfer_refusal(
                ctx.predecessor_account_id@,
                receiver_id@,
                token_id@,
                approval_id,
                ctx.block_timestamp,
            ) is None,
            done matches Err(e) ==> old(self)@.registry.transfer_refusal(
                ctx.predecessor_account_id@,
                receiver_id@,
                token_id@,
                approval_id,
                ctx.block_timestamp,
            ) == Some(e) && final(self)@ == old(self)@,
            done matches Ok(receipt) ==> {
                let previous_owner = old(self)@.registry.records[old(self)@.registry.index_of(
                    token_id@,
                )].owner;
                &&& final(self)@ == old(self)@.transferred(receiver_id@, token_id@)
                &&& receipt.event@ == old(self)@.transfer_event(
                    ctx.predecessor_account_id@,
                    receiver_id@,
                    token_id@,
                    text_of(memo),
                )
                &&& receipt.notice@.calls == seq![
                    ContractView::transfer_notice(
                        ctx.predecessor_account_id@,
                        previous_owner,
                        receiver_id@,
                        token_id@,
                        msg@,
                    ),
                ]
                &&& receipt.notice@.home_id == old(self)@.home
                &&& receipt.notice@.callback_gas == 5 * GAS_PER_TERAGAS
                &&& receipt.notice@.callback matches CallbackView::ResolveTransfer {
                    previous_owner_id,
                    receiver_id: to,
                    token_id: id,
                    approvals,
                }
                &&& previous_owner_id == previous_owner
                &&& to == receiver_id@
                &&& id == token_id@
                &&& to_map(approvals) == old(self)@.registry.granted(token_id@)
            },
    {
        let moved = match self.move_token(ctx, receiver_id.clone(), &token_id, approval_id, memo) {
            Ok(moved) => moved,
            Err(e) => {
                return Err(e);
            },
        };
        let call = RemoteCall {
            receiver_id: receiver_id.clone(),
            method: RemoteMethod::OnTransfer {
                sender_id: ctx.predecessor_account_id.clone(),
                previous_owner_id: moved.previous_owner_id.clone(),
                token_id: token_id.clone(),
                msg,
            },
            gas: GasBudget::Remaining,
            deposit: 0,
        };
        let mut calls: Vec<RemoteCall> = Vec::new();
        calls.push(call);
        let notice = CallChain {
            calls,
            home_id: self.get_owner(),
            callback: Callback::ResolveTransfer {
                previous_owner_id: moved.previous_owner_id,
                receiver_id,
                token_id,
                approvals: moved.approvals,
            },
            callback_gas: teragas(5),
        };
        assert(notice@.calls =~= seq![call@]);
        Ok(TransferCallReceipt { notice, event: moved.event })
    }

    /// Settles a transfer that waited for the receiver's answer, as the
    /// continuation of the call that told the receiver.  Where the results ask
    /// for the token back and it can go back, it goes back to
    /// `previous_owner_id` with the approvals in `approvals`.  Returns whether
    /// the transfer stands.  Only the registry itself may ask for this.
    pub fn nft_resolve_transfer(
        &mut self,
        ctx: &Context,
        previous_owner_id: String,
        receiver_id: String,
        token_id: String,
        approvals: Vec<Grant>,
    ) -> (done: Result<bool, Error>)
        requires
            old(self).wf(),
        ensures
            final(self).wf(),
            done is Ok <==> ctx.predecessor_account_id@ == old(self)@.home,
            done matches Err(e) ==> e == Error::Unauthorized && final(self)@ == old(self)@,
            done matches Ok(stands) ==> {
                &&& stands == !old(self)@.registry.reverts(
                    previous_owner_id@,
                    receiver_id@,
                    token_id@,
                    asks_back(ctx.promise_results@),
                )
                &&& final(self)@ == old(self)@.resolved(
                    *ctx,
                    previous_owner_id@,
                    receiver_id@,
                    token_id@,
                    grant_entries(approvals@),
                )
            },
    {
        if ctx.predecessor_account_id != *self.tokens.owner_id() {
            return Err(Error::Unauthorized);
        }
        let must_revert = transfer_refused(&ctx.promise_results);
        let stands = self.tokens.resolve_transfer(
            previous_owner_id,
            &receiver_id,
            &token_id,
            &approvals,
            must_revert,
        );
        if !stands {
            self.sales.invalidate(&token_id);
        }
        proof {
            self.tokens.lemma_wf();
        }
        Ok(stands)
    }

    /// Approves `account_id` for the token `token_id` on its owner's word, and
    /// describes the call that tells the account, if `msg` is given.  A
    /// refused approval changes nothing.
    pub fn nft_approve(
        &mut self,
        ctx: &Context,
        token_id: String,
        account_id: String,
        msg: Option<String>,
    ) -> (done: Result<ApproveReceipt, Error>)
        requires
            old(self).wf(),
            old(self)@.registry.has_token(token_id@) ==> old(self)@.registry.next_approval_id(
                token_id@,
            ) < u64::MAX,
        ensures
            final(self).wf(),
            done is Ok <==> old(self)@.registry.owner_refusal(
                ctx.predecessor_account_id@,
                token_id@,
            ) is None,
            done matches Err(e) ==> old(self)@.registry.owner_refusal(
                ctx.predecessor_account_id@,
                token_id@,
            ) == Some(e) && final(self)@ == old(self)@,
            done matches Ok(receipt) ==> {
                &&& receipt.approval_id == old(self)@.registry.next_approval_id(token_id@)
                &&& final(self)@ == (ContractView {
                    registry: old(self)@.registry.with_approvals(
                        token_id@,
                        (receipt.approval_id + 1) as u64,
                        old(self)@.registry.granted(token_id@).insert(
                            account_id@,
                            receipt.approval_id,
                        ),
                    ),
                    ..old(self)@
                })
                &&& call_of(receipt.notice) == ContractView::approval_notice(
                    ctx.predecessor_account_id@,
                    token_id@,
                    account_id@,
                    receipt.approval_id,
                    text_of(msg),
                )
            },
    {
        let approval_id = match self.tokens.approve(
            &ctx.predecessor_account_id,
            &token_id,
            account_id.clone(),
        ) {
            Ok(approval_id) => approval_id,
            Err(e) => {
                return Err(e);
            },
        };
        let notice = match msg {
            Some(text) => Some(
                RemoteCall {
                    receiver_id: account_id,
                    method: RemoteMethod::OnApprove {
                        token_id,
                        owner_id: ctx.predecessor_account_id.clone(),
                        approval_id,
                        msg: text,
                    },
                    gas: GasBudget::Remaining,
                    deposit: 0,
                },
            ),
            None => None,
        };
        proof {
            self.tokens.lemma_wf();
        }
        Ok(ApproveReceipt { approval_id, notice })
    }

    /// The id that the next approval of the token `token_id` receives, if the
    /// token is live.
    pub fn next_approval_id(&self, token_id: String) -> (next: Option<u64>)
        requires
            self.wf(),
        ensures
            next is Some <==> self@.registry.has_token(token_id@),
            next matches Some(id) ==> id == self@.registry.next_approval_id(token_id@),
    {
        self.tokens.next_approval_id(&token_id)
    }

    /// Takes the approval of `account_id` for the token `token_id` away on its
    /// owner's word.  Nothing happens if the account held none.
    pub fn nft_revoke(&mut self, ctx: &Context, token_id: String, account_id: String) -> (done:
        Result<(), Error>)
        requires
            old(self).wf(),
        ensures
            final(self).wf(),
            done is Ok <==> old(self)@.registry.owner_refusal(
                ctx.predecessor_account_id@,
                token_id@,
            ) is None,
            done matches Err(e) ==> old(self)@.registry.owner_refusal(
                ctx.predecessor_account_id@,
                token_id@,
            ) == Some(e) && final(self)@ == old(self)@,
            done is Ok ==> final(self)@ == (ContractView {
                registry: old(self)@.registry.with_approvals(
                    token_id@,
                    old(self)@.registry.next_approval_id(token_id@),
                    old(self)@.registry.granted(token_id@).remove(account_id@),
                ),
                ..old(self)@
            }),
    {
        let done = self.tokens.revoke(&ctx.predecessor_account_id, &token_id, &account_id);
        proof {
            self.tokens.lemma_wf();
        }
        done
    }

    /// Takes every approval for the token `token_id` away on its owner's word.
    pub fn nft_revoke_all(&mut self, ctx: &Context, token_id: String) -> (done: Result<(), Error>)
        requires
            old(self).wf(),
        ensures
            final(self).wf(),
            done is Ok <==> old(self)@.registry.owner_refusal(
                ctx.predecessor_account_id@,
                token_id@,
            ) is None,
            done matches Err(e) ==> old(self)@.registry.owner_refusal(
                ctx.predecessor_account_id@,
                token_id@,
            ) == Some(e) && final(self)@ == old(self)@,
            done is Ok ==> final(self)@ == (ContractView {
                registry: old(self)@.registry.with_approvals(
                    token_id@,
                    old(self)@.registry.next_approval_id(token_id@),
                    Map::empty(),
                ),
                ..old(self)@
            }),
    {
        let done = self.tokens.revoke_all(&ctx.predecessor_account_id, &token_id);
        proof {
            self.tokens.lemma_wf();
        }
        done
    }

    /// Tells whether `approved_account_id` is approved for the token
    /// `token_id`, under `approval_id` if one is given.
    pub fn nft_is_approved(
        &self,
        token_id: String,
        approved_account_id: String,
        approval_id: Option<u64>,
    ) -> (approved: bool)
        requires
            self.wf(),
        ensures
            approved == self@.registry.is_approved(token_id@, approved_account_id@, approval_id),
    {
        self.tokens.is_approved(&token_id, &approved_account_id, approval_id)
    }

    /// Authorizes `agent_id` on the word of the registry's owner.
    pub fn add_authorized_agent(&mut self, ctx: &Context, agent_id: String) -> (done: Result<
        (),
        Error,
    >)
        requires
            old(self).wf(),
        ensures
            final(self).wf(),
            done is Ok <==> ctx.predecessor_account_id@ == old(self)@.registry.owner,
            done matches Err(e) ==> e == Error::Unauthorized && final(self)@ == old(self)@,
            done is Ok ==> final(self)@ == (ContractView {
                registry: RegistryView {
                    agents: old(self)@.registry.agents.insert(agent_id@),
                    ..old(self)@.registry
                },
                ..old(self)@
            }),
    {
        let done = self.tokens.add_agent(&ctx.predecessor_account_id, agent_id);
        proof {
            self.tokens.lemma_wf();
        }
        done
    }

    /// Takes note of the results of the calls that change the membership of a
    /// group, as their continuation: tells for each result that can be seen
    /// whether its call came back.  The registry stays as it is, whatever the
    /// results, and however many of them can be seen.
    pub fn init_group_callback(&self, ctx: &Context, group_id: String, agent_id: String) -> (report:
        Vec<bool>)
        ensures
            report@ == came_back(ctx.promise_results@),
            ctx.promise_results@.len() == 0 ==> report@.len() == 0,
    {
        GroupSyncClient::reconcile(&ctx.promise_results)
    }

    /// Takes note of the results of the call that takes the owner of a burned
    /// token out of its group, as its continuation.  The registry stays as it
    /// is, whatever the results, and however many of them can be seen.
    pub fn nft_burn_callback(&self, ctx: &Context, token_id: String) -> (report: Vec<bool>)
        ensures
            report@ == came_back(ctx.promise_results@),
            ctx.promise_results@.len() == 0 ==> report@.len() == 0,
    {
        GroupSyncClient::reconcile(&ctx.promise_results)
    }

    /// A page of the live tokens, in the order in which they are kept: from
    /// the position `from_index` on (from the first, if none is given), and no
    /// more than `limit` of them.
    pub fn nft_tokens(&self, from_index: Option<u64>, limit: Option<u64>) -> (page: Vec<Token>)
        requires
            self.wf(),
        ensures
            ({
                let from = match from_index {
                    Some(from) => from,
                    None => 0,
                };
                let len = self@.registry.records.len() as int;
                token_views(page@) == self@.registry.presented(
                    page_start(from, len),
                    page_end(from, limit, len),
                )
            }),
    {
        let from = match from_index {
            Some(from) => from,
            None => 0,
        };
        self.tokens.tokens(from, limit)
    }

    /// A page of the tokens that `account_id` owns, in the order in which they
    /// are kept.
    pub fn nft_tokens_for_owner(&self, account_id: String, from_index: Option<u64>, limit: Option<
        u64,
    >) -> (page: Vec<Token>)
        requires
            self.wf(),
        ensures
            ({
                let from = match from_index {
                    Some(from) => from,
                    None => 0,
                };
                let owned = self@.registry.owned_tokens(
                    account_id@,
                    self@.registry.records.len() as int,
                );
                token_views(page@) == owned.subrange(
                    page_start(from, owned.len() as int),
                    page_end(from, limit, owned.len() as int),
                )
            }),
    {
        let from = match from_index {
            Some(from) => from,
            None => 0,
        };
        self.tokens.tokens_for_owner(&account_id, from, limit)
    }

    /// The terms on which the token `token_id` is offered, if it is.
    pub fn sale(&self, token_id: String) -> (sale: Option<Sale>)
        requires
            self.wf(),
        ensures
            sale is Some <==> self@.listings.contains_key(token_id@),
            sale matches Some(s) ==> s@ == self@.listings[token_id@],
    {
        self.sales.listing(&token_id)
    }

    /// Offers the token `token_id` at `price` on its owner's word, in place of
    /// any listing the token had.  A refused offer changes nothing.
    pub fn offer(&mut self, ctx: &Context, token_id: String, price: u128) -> (done: Result<
        (),
        Error,
    >)
        requires
            old(self).wf(),
        ensures
            final(self).wf(),
            done is Ok <==> old(self)@.registry.owner_refusal(
                ctx.predecessor_account_id@,
                token_id@,
            ) is None,
            done matches Err(e) ==> old(self)@.registry.owner_refusal(
                ctx.predecessor_account_id@,
                token_id@,
            ) == Some(e) && final(self)@ == old(self)@,
            done is Ok ==> final(self)@ == (ContractView {
                listings: old(self)@.listings.insert(
                    token_id@,
                    SaleView { seller: ctx.predecessor_account_id@, price },
                ),
                ..old(self)@
            }),
    {
        self.sales.offer(&self.tokens, &ctx.predecessor_account_id, token_id, price)
    }

    /// Withdraws the listing of the token `token_id` on its seller's word.  A
    /// refused withdrawal changes nothing.
    pub fn remove_offer(&mut self, ctx: &Context, token_id: String) -> (done: Result<(), Error>)
        requires
            old(self).wf(),
        ensures
            final(self).wf(),
            done is Ok <==> remove_refusal(
                old(self)@.listings,
                ctx.predecessor_account_id@,
                token_id@,
            ) is None,
            done matches Err(e) ==> remove_refusal(
                old(self)@.listings,
                ctx.predecessor_account_id@,
                token_id@,
            ) == Some(e) && final(self)@ == old(self)@,
            done is Ok ==> final(self)@ == (ContractView {
                listings: old(self)@.listings.remove(token_id@),
                ..old(self)@
            }),
    {
        self.sales.remove(&ctx.predecessor_account_id, &token_id)
    }

    /// Sells the listed token `token_id` to the caller for the payment that
    /// came with the call: the token goes to the caller, the price to the
    /// seller, and what was attached beyond the price and its margin back to
    /// the caller.  A refused purchase changes nothing.
    pub fn buy(&mut self, ctx: &Context, token_id: String) -> (done: Result<PurchaseReceipt, Error>)
        requires
            old(self).wf(),
        ensures
            final(self).wf(),
            done is Ok <==> buy_refusal(
                old(self)@.listings,
                old(self)@.registry,
                ctx.predecessor_account_id@,
                token_id@,
                ctx.attached_deposit,
                ctx.block_timestamp,
            ) is None,
            done matches Err(e) ==> buy_refusal(
                old(self)@.listings,
                old(self)@.registry,
                ctx.predecessor_account_id@,
                token_id@,
                ctx.attached_deposit,
                ctx.block_timestamp,
            ) == Some(e) && final(self)@ == old(self)@,
            done matches Ok(receipt) ==> {
                let sale = old(self)@.listings[token_id@];
                &&& final(self)@ == old(self)@.transferred(ctx.predecessor_account_id@, token_id@)
                &&& receipt.payout@ == (PaymentView { to: sale.seller, amount: sale.price })
                &&& payment_of(receipt.refund) == owed(
                    ctx.predecessor_account_id@,
                    purchase_refund(ctx.attached_deposit, sale.price),
                )
                &&& receipt.event@ == (EventView::Transfer {
                    old_owner_id: sale.seller,
                    new_owner_id: ctx.predecessor_account_id@,
                    token_id: token_id@,
                    authorized_id: None,
                    memo: None,
                })
            },
    {
        let buyer = ctx.predecessor_account_id.clone();
        let purchase = match self.sales.buy(
            &mut self.tokens,
            buyer,
            &token_id,
            ctx.attached_deposit,
            ctx.block_timestamp,
        ) {
            Ok(purchase) => purchase,
            Err(e) => {
                return Err(e);
            },
        };
        let refund = if purchase.refund > 0 {
            Some(Payment { to: ctx.predecessor_account_id.clone(), amount: purchase.refund })
        } else {
            None
        };
        let event = Event::Transfer {
            old_owner_id: purchase.seller.clone(),
            new_owner_id: ctx.predecessor_account_id.clone(),
            token_id,
            authorized_id: None,
            memo: None,
        };
        proof {
            self.tokens.lemma_wf();
        }
        Ok(
            PurchaseReceipt {
                payout: Payment { to: purchase.seller, amount: purchase.price },
                refund,
                event,
            },
        )
    }

    /// The state of the whole as plain values.
    pub fn snapshot(&self) -> (snapshot: Snapshot)
        requires
            self.wf(),
        ensures
            snapshot@ == self@,
            snapshot.sound(),
    {
        Snapshot {
            registry: self.tokens.snapshot(),
            listings: self.sales.all(),
            devbot_id: self.sync.devbot_id().clone(),
            home_id: self.sync.home_id().clone(),
            metadata: self.metadata.duplicate(),
            initialized: self.initialized,
        }
    }

    /// Puts the whole back together from a snapshot, if the snapshot is sound.
    pub fn restore(snapshot: Snapshot) -> (contract: Option<Contract>)
        ensures
            contract is Some <==> snapshot.sound(),
            contract matches Some(c) ==> c.wf() && c@ == snapshot@,
    {
        let Snapshot { registry, listings, devbot_id, home_id, metadata, initialized } = snapshot;
        let tokens = match TokenRegistry::restore(registry) {
            Some(tokens) => tokens,
            None => {
                return None;
            },
        };
        let sales = match SaleBoard::restore(listings) {
            Some(sales) => sales,
            None => {
                return None;
            },
        };
        if *tokens.owner_id() != home_id {
            return None;
        }
        if !initialized && (tokens.total_supply() != 0 || tokens.retired_count() != 0) {
            return None;
        }
        proof {
            tokens.lemma_wf();
        }
        Some(
            Contract {
                tokens,
                sales,
                sync: GroupSyncClient::new(devbot_id, home_id),
                metadata,
                initialized,
            },
        )
    }
}

} // verus!
