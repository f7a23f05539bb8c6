use vstd::prelude::*;
use crate::approval::{grant_entries, Grant};
use crate::codec::{millinear, teragas, GAS_PER_TERAGAS, YOCTO_PER_MILLI};
use crate::metadata::{Metadata, MetadataView};

verus! {

/// What was observed of one remote call when its continuation ran.
#[derive(Clone, Debug, PartialEq, Eq)]
pub enum PromiseOutcome {
    /// The call came back with these bytes.
    Successful(Vec<u8>),
    /// The call failed.
    Failed,
}

/// A call that another service is asked to run.
#[derive(Clone, Debug, PartialEq, Eq)]
pub enum RemoteMethod {
    /// Asks the membership service whether a group exists.
    GroupsContainsKey { group_id: String },
    /// Asks the membership service to register a group.
    RegisterGroup { group_id: String },
    /// Asks the membership service to add a member to a group.
    AddGroupMember { group_id: String, user_id: String },
    /// Asks the membership service to take a member out of a group.
    RevokeGroupMember { group_id: String, user_id: String },
    /// Tells the receiver of a token that it arrived.
    OnTransfer { sender_id: String, previous_owner_id: String, token_id: String, msg: String },
    /// Tells an account that it was approved for a token.
    OnApprove { token_id: String, owner_id: String, approval_id: u64, msg: String },
}

/// What a `RemoteMethod` holds.
pub enum RemoteMethodView {
    GroupsContainsKey { group_id: Seq<char> },
    RegisterGroup { group_id: Seq<char> },
    AddGroupMember { group_id: Seq<char>, user_id: Seq<char> },
    RevokeGroupMember { group_id: Seq<char>, user_id: Seq<char> },
    OnTransfer {
        sender_id: Seq<char>,
        previous_owner_id: Seq<char>,
        token_id: Seq<char>,
        msg: Seq<char>,
    },
    OnApprove { token_id: Seq<char>, owner_id: Seq<char>, approval_id: u64, msg: Seq<char> },
}

impl View for RemoteMethod {
    type V = RemoteMethodView;

    open spec fn view(&self) -> RemoteMethodView {
        match self {
            RemoteMethod::GroupsContainsKey { group_id } => RemoteMethodView::GroupsContainsKey {
                group_id: group_id@,
            },
            RemoteMethod::RegisterGroup { group_id } => RemoteMethodView::RegisterGroup {
                group_id: group_id@,
            },
            RemoteMethod::AddGroupMember { group_id, user_id } => RemoteMethodView::AddGroupMember {
                group_id: group_id@,
                user_id: user_id@,
            },
            RemoteMethod::RevokeGroupMember {
                group_id,
                user_id,
            } => RemoteMethodView::RevokeGroupMember { group_id: group_id@, user_id: user_id@ },
            RemoteMethod::OnTransfer {
                sender_id,
                previous_owner_id,
                token_id,
                msg,
            } => RemoteMethodView::OnTransfer {
                sender_id: sender_id@,
                previous_owner_id: previous_owner_id@,
                token_id: token_id@,
                msg: msg@,
            },
            RemoteMethod::OnApprove {
                token_id,
                owner_id,
                approval_id,
                msg,
            } => RemoteMethodView::OnApprove {
                token_id: token_id@,
                owner_id: owner_id@,
                approval_id: *approval_id,
                msg: msg@,
            },
        }
    }
}

/// How much gas a remote call may use.
#[derive(Clone, Copy, Debug, PartialEq, Eq, Structural)]
pub enum GasBudget {
    /// This many units of gas.
    Fixed(u64),
    /// Whatever the invocation has left.
    Remaining,
}

/// A remote call with its budget: who runs it, what it runs, how much gas it
/// may use and how much currency goes with it.
#[derive(Clone, Debug, PartialEq, Eq)]
pub struct RemoteCall {
    pub receiver_id: String,
    pub method: RemoteMethod,
    pub gas: GasBudget,
    pub deposit: u128,
}

/// What a `RemoteCall` holds.
pub struct RemoteCallView {
    pub receiver_id: Seq<char>,
    pub method: RemoteMethodView,
    pub gas: GasBudget,
    pub deposit: u128,
}

impl View for RemoteCall {
    type V = RemoteCallView;

    open spec fn view(&self) -> RemoteCallView {
        RemoteCallView {
            receiver_id: self.receiver_id@,
            method: self.method@,
            gas: self.gas,
            deposit: self.deposit,
        }
    }
}

/// The entry of the registry that runs when a chain of remote calls is over.
#[derive(Clone, Debug, PartialEq, Eq)]
pub enum Callback {
    /// Reconciles a change of group membership.
    InitGroup { group_id: String, agent_id: String },
    /// Commits a mint once the group was looked up.
    Mint { token_owner_id: String, token_metadata: Metadata, group_id: String },
    /// Reconciles the removal of a burned token's owner from its group.
    Burn { token_id: String },
    /// Settles a transfer once the receiver answered.
    ResolveTransfer {
        previous_owner_id: String,
        receiver_id: String,
        token_id: String,
        approvals: Vec<Grant>,
    },
}

/// What a `Callback` holds.
pub enum CallbackView {
    InitGroup { group_id: Seq<char>, agent_id: Seq<char> },
    Mint { token_owner_id: Seq<char>, token_metadata: MetadataView, group_id: Seq<char> },
    Burn { token_id: Seq<char> },
    ResolveTransfer {
        previous_owner_id: Seq<char>,
        receiver_id: Seq<char>,
        token_id: Seq<char>,
        approvals: Seq<(Seq<char>, u64)>,
    },
}

impl View for Callback {
    type V = CallbackView;

    open spec fn view(&self) -> CallbackView {
        match self {
            Callback::InitGroup { group_id, agent_id } => CallbackView::InitGroup {
                group_id: group_id@,
                agent_id: agent_id@,
            },
            Callback::Mint { token_owner_id, token_metadata, group_id } => CallbackView::Mint {
                token_owner_id: token_owner_id@,
                token_metadata: token_metadata@,
                group_id: group_id@,
            },
            Callback::Burn { token_id } => CallbackView::Burn { token_id: token_id@ },
            Callback::ResolveTransfer {
                previous_owner_id,
                receiver_id,
                token_id,
                approvals,
            } => CallbackView::ResolveTransfer {
                previous_owner_id: previous_owner_id@,
                receiver_id: receiver_id@,
                token_id: token_id@,
                approvals: grant_entries(approvals@),
            },
        }
    }
}

/// Remote calls that run one after the other, and the entry of the registry
/// that runs with their results when they are over.
#[derive(Clone, Debug, PartialEq, Eq)]
pub struct CallChain {
    pub calls: Vec<RemoteCall>,
    /// The account whose entry runs when the calls are over: the registry's own.
    pub home_id: String,
    pub callback: Callback,
    /// The gas that the entry may use.
    pub callback_gas: u64,
}

/// What a `CallChain` holds.
pub struct CallChainView {
    pub calls: Seq<RemoteCallView>,
    pub home_id: Seq<char>,
    pub callback: CallbackView,
    pub callback_gas: u64,
}

/// What a list of remote calls holds.
pub open spec fn call_views(calls: Seq<RemoteCall>) -> Seq<RemoteCallView> {
    calls.map_values(|c: RemoteCall| c@)
}

impl View for CallChain {
    type V = CallChainView;

    open spec fn view(&self) -> CallChainView {
        CallChainView {
            calls: call_views(self.calls@),
            home_id: self.home_id@,
            callback: self.callback@,
            callback_gas: self.callback_gas,
        }
    }
}

/// The call surface of the membership service.  Each method describes one call
/// to the service, with the budget of the handle it is called on.
pub trait ExtDevbot: Sized {
    /// The account of the service.
    spec fn service(&self) -> Seq<char>;

    /// The gas that a call made through this handle may use.
    spec fn gas(&self) -> u64;

    /// The currency that goes with a call made through this handle.
    spec fn deposit(&self) -> u128;

    /// The call that a method of this handle describes.
    open spec fn call(&self, method: RemoteMethodView) -> RemoteCallView {
        RemoteCallView {
            receiver_id: self.service(),
            method,
            gas: GasBudget::Fixed(self.gas()),
            deposit: self.deposit(),
        }
    }

    fn groups_contains_key(self, group_id: String) -> (call: RemoteCall)
        ensures
            call@ == self.call(RemoteMethodView::GroupsContainsKey { group_id: group_id@ }),
    ;

    fn register_group(self, group_id: String) -> (call: RemoteCall)
        ensures
            call@ == self.call(RemoteMethodView::RegisterGroup { group_id: group_id@ }),
    ;

    fn add_group_member(self, group_id: String, user_id: String) -> (call: RemoteCall)
        ensures
            call@ == self.call(
                RemoteMethodView::AddGroupMember { group_id: group_id@, user_id: user_id@ },
            ),
    ;

    fn revoke_group_member(self, group_id: String, user_id: String) -> (call: RemoteCall)
        ensures
            call@ == self.call(
                RemoteMethodView::RevokeGroupMember { group_id: group_id@, user_id: user_id@ },
            ),
    ;
}

/// A handle on the membership service: its account, and the budget of the
/// calls made through the handle.
pub struct DevbotHandle {
    pub account_id: String,
    pub gas: u64,
    pub deposit: u128,
}

impl DevbotHandle {
    /// A handle on the service at `account_id`, with no gas and no deposit yet.
    pub fn ext(account_id: String) -> (handle: DevbotHandle)
        ensures
            handle.account_id@ == account_id@,
            handle.gas == 0,
            handle.deposit == 0,
    {
        DevbotHandle { account_id, gas: 0, deposit: 0 }
    }

    /// The same handle, with `gas` units of gas for each call.
    pub fn with_static_gas(self, gas: u64) -> (handle: DevbotHandle)
        ensures
            handle.account_id@ == self.account_id@,
            handle.gas == gas,
            handle.deposit == self.deposit,
    {
        DevbotHandle { account_id: self.account_id, gas, deposit: self.deposit }
    }

    /// The same handle, with `deposit` units of currency for each call.
    pub fn with_attached_deposit(self, deposit: u128) -> (handle: DevbotHandle)
        ensures
            handle.account_id@ == self.account_id@,
            handle.gas == self.gas,
            handle.deposit == deposit,
    {
        DevbotHandle { account_id: self.account_id, gas: self.gas, deposit }
    }

    fn describe(self, method: RemoteMethod) -> (call: RemoteCall)
        ensures
            call@ == self.call(method@),
    {
        RemoteCall {
            receiver_id: self.account_id,
            method,
            gas: GasBudget::Fixed(self.gas),
            deposit: self.deposit,
        }
    }
}

impl ExtDevbot for DevbotHandle {
    open spec fn service(&self) -> Seq<char> {
        self.account_id@
    }

    open spec fn gas(&self) -> u64 {
        self.gas
    }

    open spec fn deposit(&self) -> u128 {
        self.deposit
    }

    fn groups_contains_key(self, group_id: String) -> (call: RemoteCall) {
        self.describe(RemoteMethod::GroupsContainsKey { group_id })
    }

    fn register_group(self, group_id: String) -> (call: RemoteCall) {
        self.describe(RemoteMethod::RegisterGroup { group_id })
    }

    fn add_group_member(self, group_id: String, user_id: String) -> (call: RemoteCall) {
        self.describe(RemoteMethod::AddGroupMember { group_id, user_id })
    }

    fn revoke_group_member(self, group_id: String, user_id: String) -> (call: RemoteCall) {
        self.describe(RemoteMethod::RevokeGroupMember { group_id, user_id })
    }
}

/// Whether each observed remote call came back, in the order of the calls.
pub open spec fn came_back(results: Seq<PromiseOutcome>) -> Seq<bool> {
    results.map_values(|r: PromiseOutcome| r is Successful)
}

/// A call to the membership service at `devbot` with `tgas` teragas and
/// `milli` thousandths of the currency.
pub open spec fn service_call(devbot: Seq<char>, method: RemoteMethodView, tgas: u64, milli: u128) -> RemoteCallView {
    RemoteCallView {
        receiver_id: devbot,
        method,
        gas: GasBudget::Fixed((tgas * GAS_PER_TERAGAS) as u64),
        deposit: (milli * YOCTO_PER_MILLI) as u128,
    }
}

/// A chain of `calls` that ends in `callback`, run at `home` with `tgas` teragas.
pub open spec fn chain_to(home: Seq<char>, calls: Seq<RemoteCallView>, callback: CallbackView, tgas: u64) -> CallChainView {
    CallChainView { calls, home_id: home, callback, callback_gas: (tgas * GAS_PER_TERAGAS) as u64 }
}

/// The chain that registers `group_id` and then adds `member` to it.
pub open spec fn register_and_join_chain(
    devbot: Seq<char>,
    home: Seq<char>,
    group_id: Seq<char>,
    member: Seq<char>,
) -> CallChainView {
    chain_to(
        home,
        seq![
            service_call(devbot, RemoteMethodView::RegisterGroup { group_id }, 30, 10),
            service_call(
                devbot,
                RemoteMethodView::AddGroupMember { group_id, user_id: member },
                50,
                10,
            ),
        ],
        CallbackView::InitGroup { group_id, agent_id: member },
        5,
    )
}

/// The chain that adds `member` to `group_id`.
pub open spec fn add_member_chain(
    devbot: Seq<char>,
    home: Seq<char>,
    group_id: Seq<char>,
    member: Seq<char>,
) -> CallChainView {
    chain_to(
        home,
        seq![
            service_call(
                devbot,
                RemoteMethodView::AddGroupMember { group_id, user_id: member },
                50,
                25,
            ),
        ],
        CallbackView::InitGroup { group_id, agent_id: member },
        5,
    )
}

/// The chain that takes `member`, who owned the burned token `token_id`, out
/// of `group_id`.
pub open spec fn revoke_member_chain(
    devbot: Seq<char>,
    home: Seq<char>,
    group_id: Seq<char>,
    member: Seq<char>,
    token_id: Seq<char>,
) -> CallChainView {
    chain_to(
        home,
        seq![
            service_call(
                devbot,
                RemoteMethodView::RevokeGroupMember { group_id, user_id: member },
                10,
                0,
            ),
        ],
        CallbackView::Burn { token_id },
        5,
    )
}

/// The chain that looks `group_id` up before a token is minted into it.
pub open spec fn lookup_chain(
    devbot: Seq<char>,
    home: Seq<char>,
    group_id: Seq<char>,
    token_owner_id: Seq<char>,
    token_metadata: MetadataView,
) -> CallChainView {
    chain_to(
        home,
        seq![service_call(devbot, RemoteMethodView::GroupsContainsKey { group_id }, 5, 0)],
        CallbackView::Mint { token_owner_id, token_metadata, group_id },
        10,
    )
}

/// Keeps the roster of the membership service in line with token ownership.
/// The client only describes the calls; the host issues them after the change
/// they follow has been committed, and hands their results to the callback
/// named in the chain.  A failed call is reported, never raised.
pub struct GroupSyncClient {
    devbot_id: String,
    home_id: String,
}

impl GroupSyncClient {
    /// The account of the membership service.
    pub closed spec fn devbot(&self) -> Seq<char> {
        self.devbot_id@
    }

    /// The account of the registry itself, where callbacks run.
    pub closed spec fn home(&self) -> Seq<char> {
        self.home_id@
    }

    /// A client of the service at `devbot_id`, for the registry at `home_id`.
    pub fn new(devbot_id: String, home_id: String) -> (client: GroupSyncClient)
        ensures
            client.devbot() == devbot_id@,
            client.home() == home_id@,
    {
        GroupSyncClient { devbot_id, home_id }
    }

    /// The account of the membership service.
    pub fn devbot_id(&self) -> (account: &String)
        ensures
            account@ == self.devbot(),
    {
        &self.devbot_id
    }

    /// The account of the registry itself.
    pub fn home_id(&self) -> (account: &String)
        ensures
            account@ == self.home(),
    {
        &self.home_id
    }

    fn handle(&self, tgas: u64, milli: u128) -> (handle: DevbotHandle)
        requires
            tgas <= 1000,
            milli <= 1000,
        ensures
            handle.account_id@ == self.devbot(),
            handle.gas == tgas * GAS_PER_TERAGAS,
            handle.deposit == milli * YOCTO_PER_MILLI,
    {
        DevbotHandle::ext(self.devbot_id.clone()).with_static_gas(teragas(tgas)).with_attached_deposit(
            millinear(milli),
        )
    }

    fn finish(&self, calls: Vec<RemoteCall>, callback: Callback, tgas: u64) -> (chain: CallChain)
        requires
            tgas <= 1000,
        ensures
            chain@ == chain_to(self.home(), call_views(calls@), callback@, tgas),
    {
        CallChain {
            calls,
            home_id: self.home_id.clone(),
            callback,
            callback_gas: teragas(tgas),
        }
    }

    /// Describes the two calls that register `group_id` and then add `member`
    /// to it.
    pub fn register_and_join(&self, group_id: &String, member: &String) -> (chain: CallChain)
        ensures
            chain@ == register_and_join_chain(self.devbot(), self.home(), group_id@, member@),
    {
        let mut calls: Vec<RemoteCall> = Vec::new();
        calls.push(self.handle(30, 10).register_group(group_id.clone()));
        calls.push(self.handle(50, 10).add_group_member(group_id.clone(), member.clone()));
        let callback = Callback::InitGroup { group_id: group_id.clone(), agent_id: member.clone() };
        let chain = self.finish(calls, callback, 5);
        assert(chain@.calls =~= register_and_join_chain(self.devbot(), self.home(), group_id@, member@).calls);
        chain
    }

    /// Describes the call that adds `member` to `group_id`.
    pub fn add_member(&self, group_id: &String, member: &String) -> (chain: CallChain)
        ensures
            chain@ == add_member_chain(self.devbot(), self.home(), group_id@, member@),
    {
        let mut calls: Vec<RemoteCall> = Vec::new();
        calls.push(self.handle(50, 25).add_group_member(group_id.clone(), member.clone()));
        let callback = Callback::InitGroup { group_id: group_id.clone(), agent_id: member.clone() };
        let chain = self.finish(calls, callback, 5);
        assert(chain@.calls =~= add_member_chain(self.devbot(), self.home(), group_id@, member@).calls);
        chain
    }

    /// Describes the call that takes `member`, who owned the burned token
    /// `token_id`, out of `group_id`.
    pub fn revoke_member(&self, group_id: &String, member: &String, token_id: &String) -> (chain:
        CallChain)
        ensures
            chain@ == revoke_member_chain(self.devbot(), self.home(), group_id@, member@, token_id@),
    {
        let mut calls: Vec<RemoteCall> = Vec::new();
        calls.push(self.handle(10, 0).revoke_group_member(group_id.clone(), member.clone()));
        let callback = Callback::Burn { token_id: token_id.clone() };
        let chain = self.finish(calls, callback, 5);
        assert(chain@.calls =~= revoke_member_chain(self.devbot(), self.home(), group_id@, member@, token_id@).calls);
        chain
    }

    /// Describes the call that looks `group_id` up before a token is minted
    /// into it.
    pub fn lookup_group(&self, group_id: &String, token_owner_id: String, token_metadata: Metadata) -> (chain:
        CallChain)
        ensures
            chain@ == lookup_chain(self.devbot(), self.home(), group_id@, token_owner_id@, token_metadata@),
    {
        let mut calls: Vec<RemoteCall> = Vec::new();
        calls.push(self.handle(5, 0).groups_contains_key(group_id.clone()));
        let callback = Callback::Mint {
            token_owner_id,
            token_metadata,
            group_id: group_id.clone(),
        };
        let chain = self.finish(calls, callback, 10);
        assert(chain@.calls =~= lookup_chain(
            self.devbot(),
            self.home(),
            group_id@,
            token_owner_id@,
            token_metadata@,
        ).calls);
        chain
    }

    /// Takes note of the remote results that were observed, however many:
    /// tells for each whether its call came back.  No result at all is an
    /// empty report, not a failure.
    pub fn reconcile(results: &Vec<PromiseOutcome>) -> (report: Vec<bool>)
        ensures
            report@ == came_back(results@),
    {
        let mut report: Vec<bool> = Vec::new();
        let mut i: usize = 0;
        while i < results.len()
            invariant
                i <= results.len(),
                report@ == came_back(results@).subrange(0, i as int),
            decreases results.len() - i,
        {
            let back = match &results[i] {
                PromiseOutcome::Successful(_) => true,
                PromiseOutcome::Failed => false,
            };
            report.push(back);
            i = i + 1;
            assert(report@ =~= came_back(results@).subrange(0, i as int));
        }
        assert(came_back(results@).subrange(0, i as int) =~= came_back(results@));
        report
    }
}

} // verus!
