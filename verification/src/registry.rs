use vstd::prelude::*;
use crate::allocator::IdentifierAllocator;
use crate::approval::{grant_entries, restored, Approvals, Grant};
use crate::assoc::{has_key, keys_distinct, lemma_to_map_keys, lemma_to_map_value, to_map};
use crate::error::Error;
use crate::guard::{names, AuthorizationGuard};
use crate::metadata::{Metadata, MetadataView};
use crate::ownership::{held_by, lemma_listed, lemma_same_index, lemma_struck, listed, lists, no_idle_owner, struck, OwnershipIndex};
use crate::text::{id_text, is_token_id, lemma_id_text_injective, parse_token_id, token_id_for, MAX_SUPPLY};

verus! {

/// The rules that a registry was set up with.
#[derive(Clone, Copy, Debug, PartialEq, Eq, Structural)]
pub struct Config {
    /// An account owns at most one token.
    pub single_ownership: bool,
    /// Only the owner mints; agents do not.
    pub owner_only_mint: bool,
    /// For how many seconds after its issue a token cannot be transferred.
    pub transfer_lock_seconds: Option<u64>,
}

/// How many units of the host's clock make a second.
pub const CLOCK_UNITS_PER_SECOND: u64 = 1_000_000_000;

/// A token as the registry presents it.
#[derive(Clone, Debug, PartialEq, Eq)]
pub struct Token {
    pub token_id: String,
    pub owner_id: String,
    pub metadata: Metadata,
    pub approved_account_ids: Vec<Grant>,
}

/// What a `Token` holds.
pub struct TokenView {
    pub token_id: Seq<char>,
    pub owner_id: Seq<char>,
    pub metadata: MetadataView,
    pub approvals: Map<Seq<char>, u64>,
}

impl View for Token {
    type V = TokenView;

    open spec fn view(&self) -> TokenView {
        TokenView {
            token_id: self.token_id@,
            owner_id: self.owner_id@,
            metadata: self.metadata@,
            approvals: to_map(grant_entries(self.approved_account_ids@)),
        }
    }
}

/// What the registry keeps of a live token.
pub struct RecordView {
    pub serial: u64,
    pub owner: Seq<char>,
    pub metadata: MetadataView,
}

/// The approvals kept for one identifier.
pub struct ApprovalsView {
    pub next_id: u64,
    pub granted: Map<Seq<char>, u64>,
}

/// The state of a registry.
pub struct RegistryView {
    /// The live tokens, in the order in which they are kept.
    pub records: Seq<RecordView>,
    /// The counter of live tokens.
    pub live_count: nat,
    /// The serial numbers of burned tokens that wait to be used again.
    pub retired: Seq<u64>,
    /// The approvals of each identifier handed out so far, by serial number.
    pub approvals: Seq<ApprovalsView>,
    pub owner: Seq<char>,
    pub agents: Set<Seq<char>>,
    pub config: Config,
}

impl RegistryView {
    /// How many identifiers have ever been handed out.
    pub open spec fn issued(self) -> nat {
        self.live_count + self.retired.len()
    }

    /// The identifiers of the live tokens.
    pub open spec fn token_ids(self) -> Set<Seq<char>> {
        Set::new(|id: Seq<char>| self.has_token(id))
    }

    /// The identifiers that wait in the pool of retired identifiers.
    pub open spec fn retired_ids(self) -> Set<Seq<char>> {
        Set::new(
            |id: Seq<char>|
                exists|j: int|
                    0 <= j < self.retired.len() && id == id_text(
                        (#[trigger] self.retired[j]) as nat,
                    ),
        )
    }

    /// The identifiers of the tokens that `account` owns.
    pub open spec fn owned_ids(self, account: Seq<char>) -> Set<Seq<char>> {
        Set::new(
            |id: Seq<char>|
                exists|i: int|
                    0 <= i < self.records.len() && (#[trigger] self.records[i]).owner == account
                        && id == id_text(self.records[i].serial as nat),
        )
    }

    /// Whether a live token has the identifier `id`.
    pub open spec fn has_token(self, id: Seq<char>) -> bool {
        exists|i: int|
            0 <= i < self.records.len() && id == id_text((#[trigger] self.records[i]).serial as nat)
    }

    /// Where the live token with identifier `id` is kept.
    pub open spec fn index_of(self, id: Seq<char>) -> int {
        choose|i: int|
            0 <= i < self.records.len() && id == id_text((#[trigger] self.records[i]).serial as nat)
    }

    /// Which tokens each owner holds, by serial number.
    pub open spec fn ownership(self) -> Map<Seq<char>, Set<u64>> {
        index_of_records(self.records)
    }

    /// Whether `account` owns a live token.
    pub open spec fn owns_any(self, account: Seq<char>) -> bool {
        exists|i: int| 0 <= i < self.records.len() && (#[trigger] self.records[i]).owner == account
    }

    /// How many of the first `upto` live tokens `account` owns.
    pub open spec fn owned_among(self, account: Seq<char>, upto: int) -> nat
        decreases upto,
    {
        if upto <= 0 {
            0
        } else {
            self.owned_among(account, upto - 1) + if self.records[upto - 1].owner == account {
                1nat
            } else {
                0nat
            }
        }
    }

    /// The live token kept at `at`, as it is presented.
    pub open spec fn token_at(self, at: int) -> TokenView {
        TokenView {
            token_id: id_text(self.records[at].serial as nat),
            owner_id: self.records[at].owner,
            metadata: self.records[at].metadata,
            approvals: self.approvals[self.records[at].serial as int].granted,
        }
    }

    /// The live token with identifier `id`, if there is one.
    pub open spec fn token(self, id: Seq<char>) -> Option<TokenView> {
        if self.has_token(id) {
            Some(self.token_at(self.index_of(id)))
        } else {
            None
        }
    }

    /// Whether `account` may mint under the rules of this registry.
    pub open spec fn may_mint(self, account: Seq<char>) -> bool {
        account == self.owner || (!self.config.owner_only_mint && self.agents.contains(account))
    }

    /// The counter of live tokens is their number; no identifier is live
    /// twice, and none is both live and retired; each identifier in use or
    /// retired was handed out, no more than the supply allows; a retired
    /// identifier carries no approval; each approval id on record was given
    /// out before the next one; and where an account may own one token only,
    /// no two live tokens have the same owner.
    pub open spec fn wf(self) -> bool {
        &&& self.live_count == self.records.len()
        &&& self.issued() <= MAX_SUPPLY
        &&& self.approvals.len() == self.issued()
        &&& self.retired.no_duplicates()
        &&& forall|j: int| 0 <= j < self.retired.len() ==> #[trigger] self.retired[j] < self.issued()
        &&& forall|i: int|
            0 <= i < self.records.len() ==> (#[trigger] self.records[i]).serial < self.issued()
        &&& forall|i: int, j: int|
            0 <= i < j < self.records.len() ==> (#[trigger] self.records[i]).serial
                != (#[trigger] self.records[j]).serial
        &&& forall|i: int|
            0 <= i < self.records.len() ==> !self.retired.contains(
                (#[trigger] self.records[i]).serial,
            )
        &&& forall|j: int|
            0 <= j < self.retired.len() ==> self.approvals[(#[trigger] self.retired[j]) as int].granted
                == Map::<Seq<char>, u64>::empty()
        &&& forall|k: int|
            0 <= k < self.approvals.len() ==> (#[trigger] self.approvals[k]).next_id >= 1
        &&& forall|k: int, account: Seq<char>|
            0 <= k < self.approvals.len() && #[trigger] self.approvals[k].granted.contains_key(
                account,
            ) ==> 1 <= self.approvals[k].granted[account] < self.approvals[k].next_id
        &&& self.config.single_ownership ==> forall|i: int, j: int|
            0 <= i < j < self.records.len() ==> (#[trigger] self.records[i]).owner
                != (#[trigger] self.records[j]).owner
    }

    /// Whether `serial` is the serial number that the next mint receives: the
    /// lowest retired one, or the live count when none is retired.
    pub open spec fn is_next_serial(self, serial: u64) -> bool {
        if self.retired.len() > 0 {
            &&& self.retired.contains(serial)
            &&& forall|j: int| 0 <= j < self.retired.len() ==> serial <= #[trigger] self.retired[j]
        } else {
            serial == self.live_count
        }
    }

    /// The serial number that the next mint receives.
    pub open spec fn next_serial(self) -> u64 {
        choose|serial: u64| self.is_next_serial(serial)
    }

    /// Why a mint for `owner`, asked for by `caller`, is refused, if it is.
    pub open spec fn mint_refusal(self, caller: Seq<char>, owner: Seq<char>) -> Option<Error> {
        if self.retired.len() == 0 && self.live_count >= MAX_SUPPLY {
            Some(Error::CapacityExceeded)
        } else if self.config.single_ownership && self.owns_any(owner) {
            Some(Error::DuplicateOwnership)
        } else if !self.may_mint(caller) {
            Some(Error::Unauthorized)
        } else {
            None
        }
    }

    /// The state after a token with the next serial number was minted for
    /// `owner` with `metadata`.
    pub open spec fn minted(self, owner: Seq<char>, metadata: MetadataView) -> RegistryView {
        let serial = self.next_serial();
        RegistryView {
            records: self.records.push(RecordView { serial, owner, metadata }),
            live_count: self.live_count + 1,
            retired: if self.retired.len() > 0 {
                self.retired.remove(self.retired.index_of(serial))
            } else {
                self.retired
            },
            approvals: if self.retired.len() > 0 {
                self.approvals
            } else {
                self.approvals.push(ApprovalsView { next_id: 1, granted: Map::empty() })
            },
            ..self
        }
    }

    /// The token that such a mint presents.
    pub open spec fn minted_token(self, owner: Seq<char>, metadata: MetadataView) -> TokenView {
        TokenView {
            token_id: id_text(self.next_serial() as nat),
            owner_id: owner,
            metadata,
            approvals: Map::empty(),
        }
    }

    /// Why `caller` is refused the burn of the token `id`, if it is.
    pub open spec fn burn_refusal(self, caller: Seq<char>, id: Seq<char>) -> Option<Error> {
        if !self.has_token(id) {
            Some(Error::NotFound)
        } else if caller != self.records[self.index_of(id)].owner && caller != self.owner {
            Some(Error::Unauthorized)
        } else {
            None
        }
    }

    /// The state after the token `id` was burned.
    pub open spec fn burned(self, id: Seq<char>) -> RegistryView {
        let at = self.index_of(id);
        let serial = self.records[at].serial;
        RegistryView {
            records: self.records.remove(at),
            live_count: (self.live_count - 1) as nat,
            retired: self.retired.push(serial),
            approvals: self.approvals.update(
                serial as int,
                ApprovalsView { granted: Map::empty(), ..self.approvals[serial as int] },
            ),
            ..self
        }
    }

    /// Whether the token kept at `at` is still inside its transfer lock at `now`.
    pub open spec fn locked(self, at: int, now: u64) -> bool {
        self.config.transfer_lock_seconds matches Some(seconds) && {
            let issued = match self.records[at].metadata.issued_at {
                Some(instant) => instant,
                None => 0,
            };
            let elapsed = if now >= issued {
                now - issued
            } else {
                0
            };
            elapsed < seconds * CLOCK_UNITS_PER_SECOND
        }
    }

    /// Why `caller` is refused the transfer of the token `id` to `receiver`,
    /// if it is.
    pub open spec fn transfer_refusal(
        self,
        caller: Seq<char>,
        receiver: Seq<char>,
        id: Seq<char>,
        approval_id: Option<u64>,
        now: u64,
    ) -> Option<Error> {
        if self.config.single_ownership && self.owns_any(receiver) {
            Some(Error::DuplicateOwnership)
        } else if !self.has_token(id) {
            Some(Error::NotFound)
        } else {
            let at = self.index_of(id);
            let record = self.records[at];
            let granted = self.approvals[record.serial as int].granted;
            if self.locked(at, now) {
                Some(Error::TransferLocked)
            } else if caller != record.owner && !granted.contains_key(caller) {
                Some(Error::Unauthorized)
            } else if caller != record.owner && approval_id is Some && approval_id != Some(
                granted[caller],
            ) {
                Some(Error::ApprovalMismatch)
            } else if receiver == record.owner {
                Some(Error::DuplicateOwnership)
            } else {
                None
            }
        }
    }

    /// The state after the token `id` went to `new_owner` and the approvals in
    /// `granted` were put on it.
    pub open spec fn handed_over(
        self,
        id: Seq<char>,
        new_owner: Seq<char>,
        granted: Map<Seq<char>, u64>,
    ) -> RegistryView {
        let at = self.index_of(id);
        let serial = self.records[at].serial;
        RegistryView {
            records: self.records.update(at, RecordView { owner: new_owner, ..self.records[at] }),
            approvals: self.approvals.update(
                serial as int,
                ApprovalsView { granted, ..self.approvals[serial as int] },
            ),
            ..self
        }
    }

    /// The id that the next approval of the token `id` receives.
    pub open spec fn next_approval_id(self, id: Seq<char>) -> u64 {
        self.approvals[self.records[self.index_of(id)].serial as int].next_id
    }

    /// The approvals of the token `id`.
    pub open spec fn granted(self, id: Seq<char>) -> Map<Seq<char>, u64> {
        self.approvals[self.records[self.index_of(id)].serial as int].granted
    }

    /// Why `caller` is refused an act that only the owner of the token `id`
    /// may do, if it is.
    pub open spec fn owner_refusal(self, caller: Seq<char>, id: Seq<char>) -> Option<Error> {
        if !self.has_token(id) {
            Some(Error::NotFound)
        } else if caller != self.records[self.index_of(id)].owner {
            Some(Error::Unauthorized)
        } else {
            None
        }
    }

    /// The state after the approvals of the token `id` became `granted` and
    /// the id of its next approval became `next_id`.
    pub open spec fn with_approvals(
        self,
        id: Seq<char>,
        next_id: u64,
        granted: Map<Seq<char>, u64>,
    ) -> RegistryView {
        let serial = self.records[self.index_of(id)].serial;
        RegistryView {
            approvals: self.approvals.update(serial as int, ApprovalsView { next_id, granted }),
            ..self
        }
    }

    /// Whether `account` is approved for the token `id`, under `approval_id`
    /// if one is given.
    pub open spec fn is_approved(
        self,
        id: Seq<char>,
        account: Seq<char>,
        approval_id: Option<u64>,
    ) -> bool {
        &&& self.has_token(id)
        &&& self.granted(id).contains_key(account)
        &&& (approval_id matches Some(given) ==> self.granted(id)[account] == given)
    }

    /// Whether a transfer of the token `id` from `previous_owner` to
    /// `receiver` is undone: the receiver's side asked for it, the receiver
    /// still owns the token, and the previous owner may own it again.
    pub open spec fn reverts(
        self,
        previous_owner: Seq<char>,
        receiver: Seq<char>,
        id: Seq<char>,
        must_revert: bool,
    ) -> bool {
        &&& must_revert
        &&& self.has_token(id)
        &&& self.records[self.index_of(id)].owner == receiver
        &&& !(self.config.single_ownership && self.owns_any(previous_owner))
    }

    /// The live tokens kept from `start` up to `end`, as they are presented.
    pub open spec fn presented(self, start: int, end: int) -> Seq<TokenView> {
        Seq::new((end - start) as nat, |j: int| self.token_at(start + j))
    }

    /// The tokens that `account` owns among the first `upto` live tokens, as
    /// they are presented, in the order in which they are kept.
    pub open spec fn owned_tokens(self, account: Seq<char>, upto: int) -> Seq<TokenView>
        decreases upto,
    {
        if upto <= 0 {
            Seq::empty()
        } else if self.records[upto - 1].owner == account {
            self.owned_tokens(account, upto - 1).push(self.token_at(upto - 1))
        } else {
            self.owned_tokens(account, upto - 1)
        }
    }

    /// In a well-formed registry one serial number only is next.
    pub proof fn lemma_next_serial(self, serial: u64)
        requires
            self.wf(),
            self.is_next_serial(serial),
        ensures
            self.next_serial() == serial,
    {
        let other = self.next_serial();
        if self.retired.len() > 0 {
            let a = choose|j: int| 0 <= j < self.retired.len() && self.retired[j] == serial;
            let b = choose|j: int| 0 <= j < self.retired.len() && self.retired[j] == other;
            assert(serial <= self.retired[b]);
            assert(other <= self.retired[a]);
        }
    }

    /// In a well-formed registry the token with a given identifier is kept in
    /// one place only.
    pub proof fn lemma_index_of(self, id: Seq<char>, at: int)
        requires
            self.wf(),
            0 <= at < self.records.len(),
            id == id_text(self.records[at].serial as nat),
        ensures
            self.has_token(id),
            self.index_of(id) == at,
            self.token(id) == Some(self.token_at(at)),
    {
        let found = self.index_of(id);
        lemma_id_text_injective(self.records[found].serial as nat, self.records[at].serial as nat);
    }
}

/// What a transfer took from the previous owner: the token itself, and the
/// approvals that were on it.
#[derive(Clone, Debug, PartialEq, Eq)]
pub struct Handover {
    pub previous_owner: String,
    pub approvals: Vec<Grant>,
}

/// What a list of tokens holds.
pub open spec fn token_views(tokens: Seq<Token>) -> Seq<TokenView> {
    tokens.map_values(|t: Token| t@)
}

/// Where a page that starts at `from_index` starts in a list of `len`
/// entries: at `from_index`, or at the end of the list if that lies beyond it.
pub open spec fn page_start(from_index: u64, len: int) -> int {
    if from_index < len {
        from_index as int
    } else {
        len
    }
}

/// Where a page of no more than `limit` entries that starts at `from_index`
/// ends in a list of `len` entries.
pub open spec fn page_end(from_index: u64, limit: Option<u64>, len: int) -> int {
    let start = page_start(from_index, len);
    match limit {
        Some(most) => if start + most < len {
            start + most
        } else {
            len
        },
        None => len,
    }
}

/// A list of numbers that is not empty has a lowest member.
proof fn lemma_lowest_exists(numbers: Seq<u64>)
    requires
        numbers.len() > 0,
    ensures
        exists|low: u64|
            numbers.contains(low) && forall|j: int|
                0 <= j < numbers.len() ==> low <= #[trigger] numbers[j],
    decreases numbers.len(),
{
    if numbers.len() == 1 {
        assert(numbers.contains(numbers[0]));
    } else {
        let rest = numbers.drop_last();
        lemma_lowest_exists(rest);
        let low = choose|low: u64|
            rest.contains(low) && forall|j: int| 0 <= j < rest.len() ==> low <= #[trigger] rest[j];
        let at = choose|i: int| 0 <= i < rest.len() && rest[i] == low;
        assert(numbers[at] == low);
        let best = if numbers.last() < low {
            numbers.last()
        } else {
            low
        };
        assert(numbers.contains(best)) by {
            if numbers.last() < low {
                assert(numbers[numbers.len() - 1] == best);
            } else {
                assert(numbers[at] == best);
            }
        }
        assert forall|j: int| 0 <= j < numbers.len() implies best <= #[trigger] numbers[j] by {
            if j < rest.len() {
                assert(rest[j] == numbers[j]);
            }
        }
    }
}

/// In a well-formed registry that can mint, some serial number is next.
pub proof fn lemma_next_serial_exists(state: RegistryView)
    requires
        state.wf(),
        state.retired.len() > 0 || state.live_count < MAX_SUPPLY,
    ensures
        state.is_next_serial(state.next_serial()),
        state.next_serial() < MAX_SUPPLY,
        state.retired.len() > 0 ==> state.retired.contains(state.next_serial()),
        state.retired.len() == 0 ==> state.next_serial() == state.live_count,
{
    if state.retired.len() > 0 {
        lemma_lowest_exists(state.retired);
        let low = choose|low: u64|
            state.retired.contains(low) && forall|j: int|
                0 <= j < state.retired.len() ==> low <= #[trigger] state.retired[j];
        assert(state.is_next_serial(low));
        let next = state.next_serial();
        let at = choose|j: int| 0 <= j < state.retired.len() && state.retired[j] == next;
        assert(state.retired[at] < state.issued());
    } else {
        assert(state.is_next_serial(state.live_count as u64));
    }
}

/// A mint that is not refused leaves the registry well-formed.
pub proof fn lemma_minted_wf(
    state: RegistryView,
    caller: Seq<char>,
    owner: Seq<char>,
    metadata: MetadataView,
)
    requires
        state.wf(),
        state.mint_refusal(caller, owner) is None,
    ensures
        state.minted(owner, metadata).wf(),
{
    lemma_next_serial_exists(state);
    let serial = state.next_serial();
    let after = state.minted(owner, metadata);
    if state.retired.len() > 0 {
        let at = state.retired.index_of(serial);
        assert(0 <= at < state.retired.len() && state.retired[at] == serial);
        assert forall|j: int| 0 <= j < after.retired.len() implies (#[trigger] after.retired[j])
            == state.retired[if j < at { j } else { j + 1 }] by {}
        assert forall|i: int, j: int|
            0 <= i < after.retired.len() && 0 <= j < after.retired.len() && i != j implies after.retired[i]
            != after.retired[j] by {
            let a = if i < at { i } else { i + 1 };
            let b = if j < at { j } else { j + 1 };
            assert(state.retired[a] != state.retired[b]);
        }
        assert forall|j: int| 0 <= j < after.retired.len() implies #[trigger] after.retired[j]
            < after.issued() by {
            let b = if j < at { j } else { j + 1 };
            assert(state.retired[b] < state.issued());
        }
        assert forall|j: int| 0 <= j < after.retired.len() implies after.approvals[(
        #[trigger] after.retired[j]) as int].granted == Map::<Seq<char>, u64>::empty() by {
            let b = if j < at { j } else { j + 1 };
            assert(state.approvals[state.retired[b] as int].granted == Map::<
                Seq<char>,
                u64,
            >::empty());
        }
        assert forall|i: int| 0 <= i < after.records.len() implies !after.retired.contains(
            (#[trigger] after.records[i]).serial,
        ) by {
            if after.retired.contains(after.records[i].serial) {
                let j = choose|j: int|
                    0 <= j < after.retired.len() && after.retired[j] == after.records[i].serial;
                let b = if j < at { j } else { j + 1 };
                assert(state.retired[b] == after.records[i].serial);
                if i < state.records.len() {
                    assert(after.records[i] == state.records[i]);
                    assert(state.retired.contains(state.records[i].serial));
                } else {
                    assert(state.retired[b] != state.retired[at]);
                }
            }
        }
    } else {
        assert forall|i: int| 0 <= i < after.records.len() implies !after.retired.contains(
            (#[trigger] after.records[i]).serial,
        ) by {}
        assert forall|k: int, account: Seq<char>|
            0 <= k < after.approvals.len() && #[trigger] after.approvals[k].granted.contains_key(
                account,
            ) implies 1 <= after.approvals[k].granted[account] < after.approvals[k].next_id by {
            if k < state.approvals.len() {
                assert(after.approvals[k] == state.approvals[k]);
                assert(state.approvals[k].granted.contains_key(account));
            }
        }
        assert forall|k: int| 0 <= k < after.approvals.len() implies (#[trigger] after.approvals[k]).next_id
            >= 1 by {
            if k < state.approvals.len() {
                assert(after.approvals[k] == state.approvals[k]);
            }
        }
    }
    assert forall|i: int| 0 <= i < after.records.len() implies (#[trigger] after.records[i]).serial
        < after.issued() by {
        if i < state.records.len() {
            assert(after.records[i] == state.records[i]);
        }
    }
    assert forall|i: int, j: int| 0 <= i < j < after.records.len() implies (
    #[trigger] after.records[i]).serial != (#[trigger] after.records[j]).serial by {
        assert(after.records[i] == state.records[i]);
        if j == state.records.len() {
            assert(!state.retired.contains(state.records[i].serial));
        } else {
            assert(after.records[j] == state.records[j]);
        }
    }
    if state.config.single_ownership {
        assert forall|i: int, j: int| 0 <= i < j < after.records.len() implies (
        #[trigger] after.records[i]).owner != (#[trigger] after.records[j]).owner by {
            assert(after.records[i] == state.records[i]);
            if j == state.records.len() {
                assert(!state.owns_any(owner));
            } else {
                assert(after.records[j] == state.records[j]);
            }
        }
    }
}

/// A burn of a live token leaves the registry well-formed.
pub proof fn lemma_burned_wf(state: RegistryView, id: Seq<char>)
    requires
        state.wf(),
        state.has_token(id),
    ensures
        state.burned(id).wf(),
{
    let at = state.index_of(id);
    let serial = state.records[at].serial;
    let after = state.burned(id);
    assert forall|i: int| 0 <= i < after.records.len() implies (#[trigger] after.records[i])
        == state.records[if i < at { i } else { i + 1 }] by {}
    assert forall|i: int, j: int| 0 <= i < j < after.records.len() implies (
    #[trigger] after.records[i]).serial != (#[trigger] after.records[j]).serial by {
        let a = if i < at { i } else { i + 1 };
        let b = if j < at { j } else { j + 1 };
        assert(state.records[a].serial != state.records[b].serial);
    }
    assert forall|i: int| 0 <= i < after.records.len() implies (#[trigger] after.records[i]).serial
        < after.issued() by {
        let a = if i < at { i } else { i + 1 };
        assert(state.records[a].serial < state.issued());
    }
    assert(!state.retired.contains(serial));
    assert forall|i: int, j: int|
        0 <= i < after.retired.len() && 0 <= j < after.retired.len() && i != j implies after.retired[i]
        != after.retired[j] by {
        if i < state.retired.len() {
            assert(state.retired.contains(state.retired[i]));
        }
        if j < state.retired.len() {
            assert(state.retired.contains(state.retired[j]));
        }
    }
    assert forall|j: int| 0 <= j < after.retired.len() implies #[trigger] after.retired[j]
        < after.issued() by {
        if j < state.retired.len() {
            assert(state.retired[j] < state.issued());
        }
    }
    assert forall|i: int| 0 <= i < after.records.len() implies !after.retired.contains(
        (#[trigger] after.records[i]).serial,
    ) by {
        let a = if i < at { i } else { i + 1 };
        assert(!state.retired.contains(state.records[a].serial));
        if after.retired.contains(after.records[i].serial) {
            let j = choose|j: int|
                0 <= j < after.retired.len() && after.retired[j] == after.records[i].serial;
            if j < state.retired.len() {
                assert(state.retired[j] == state.records[a].serial);
            } else {
                if a < at {
                    assert(state.records[a].serial != state.records[at].serial);
                } else {
                    assert(state.records[at].serial != state.records[a].serial);
                }
            }
        }
    }
    assert forall|j: int| 0 <= j < after.retired.len() implies after.approvals[(
    #[trigger] after.retired[j]) as int].granted == Map::<Seq<char>, u64>::empty() by {
        if j < state.retired.len() {
            assert(state.approvals[state.retired[j] as int].granted == Map::<
                Seq<char>,
                u64,
            >::empty());
        }
    }
    assert forall|k: int, account: Seq<char>|
        0 <= k < after.approvals.len() && #[trigger] after.approvals[k].granted.contains_key(
            account,
        ) implies 1 <= after.approvals[k].granted[account] < after.approvals[k].next_id by {
        assert(k != serial);
        assert(after.approvals[k] == state.approvals[k]);
        assert(state.approvals[k].granted.contains_key(account));
    }
    assert forall|k: int| 0 <= k < after.approvals.len() implies (#[trigger] after.approvals[k]).next_id
        >= 1 by {
        if k != serial {
            assert(after.approvals[k] == state.approvals[k]);
        } else {
            assert(state.approvals[k].next_id >= 1);
        }
    }
    if state.config.single_ownership {
        assert forall|i: int, j: int| 0 <= i < j < after.records.len() implies (
        #[trigger] after.records[i]).owner != (#[trigger] after.records[j]).owner by {
            let a = if i < at { i } else { i + 1 };
            let b = if j < at { j } else { j + 1 };
            assert(state.records[a].owner != state.records[b].owner);
        }
    }
}

/// Whether some record gives the token `serial` to `owner`.
pub open spec fn record_lists(records: Seq<RecordView>, owner: Seq<char>, serial: u64) -> bool {
    exists|i: int|
        0 <= i < records.len() && (#[trigger] records[i]).owner == owner && records[i].serial
            == serial
}

/// The index of ownership that a list of records stands for: each owner that
/// has a record, with the serial numbers of its records.
pub open spec fn index_of_records(records: Seq<RecordView>) -> Map<Seq<char>, Set<u64>> {
    Map::new(
        |owner: Seq<char>|
            exists|i: int| 0 <= i < records.len() && (#[trigger] records[i]).owner == owner,
        |owner: Seq<char>| Set::new(|serial: u64| record_lists(records, owner, serial)),
    )
}

/// The index of a list of records lists a token for an owner exactly when a
/// record gives it to that owner, and lists no owner with nothing.
pub proof fn lemma_index_of_records(records: Seq<RecordView>)
    ensures
        no_idle_owner(index_of_records(records)),
        forall|owner: Seq<char>, serial: u64|
            lists(index_of_records(records), owner, serial) <==> record_lists(
                records,
                owner,
                serial,
            ),
{
    let index = index_of_records(records);
    assert forall|owner: Seq<char>| #[trigger] index.contains_key(owner) implies exists|
        serial: u64,
    | index[owner].contains(serial) by {
        let i = choose|i: int| 0 <= i < records.len() && (#[trigger] records[i]).owner == owner;
        assert(record_lists(records, owner, records[i].serial));
        assert(index[owner].contains(records[i].serial));
    }
    assert forall|owner: Seq<char>, serial: u64|
        lists(index, owner, serial) <==> record_lists(records, owner, serial) by {
        if record_lists(records, owner, serial) {
            let i = choose|i: int|
                0 <= i < records.len() && (#[trigger] records[i]).owner == owner
                    && records[i].serial == serial;
            assert(index.contains_key(owner));
        }
    }
}

/// A record for a serial number that no record has lists that number for its
/// owner in the index.
pub proof fn lemma_index_push(records: Seq<RecordView>, record: RecordView)
    requires
        forall|i: int| 0 <= i < records.len() ==> (#[trigger] records[i]).serial != record.serial,
    ensures
        !held_by(index_of_records(records), record.owner).contains(record.serial),
        index_of_records(records.push(record)) == listed(
            index_of_records(records),
            record.owner,
            record.serial,
        ),
{
    let before = index_of_records(records);
    let longer = records.push(record);
    lemma_index_of_records(records);
    lemma_index_of_records(longer);
    lemma_listed(before, record.owner, record.serial);
    assert forall|owner: Seq<char>, serial: u64|
        lists(index_of_records(longer), owner, serial) <==> lists(
            listed(before, record.owner, record.serial),
            owner,
            serial,
        ) by {
        if record_lists(longer, owner, serial) {
            let i = choose|i: int|
                0 <= i < longer.len() && (#[trigger] longer[i]).owner == owner && longer[i].serial
                    == serial;
            if i < records.len() {
                assert(records[i] == longer[i]);
                assert(record_lists(records, owner, serial));
            }
        }
        if record_lists(records, owner, serial) {
            let i = choose|i: int|
                0 <= i < records.len() && (#[trigger] records[i]).owner == owner
                    && records[i].serial == serial;
            assert(longer[i] == records[i]);
            assert(record_lists(longer, owner, serial));
        }
        if owner == record.owner && serial == record.serial {
            assert(longer[records.len() as int] == record);
            assert(record_lists(longer, owner, serial));
        }
    }
    lemma_same_index(index_of_records(longer), listed(before, record.owner, record.serial));
    if held_by(before, record.owner).contains(record.serial) {
        assert(lists(before, record.owner, record.serial));
        let i = choose|i: int|
            0 <= i < records.len() && (#[trigger] records[i]).owner == record.owner
                && records[i].serial == record.serial;
        assert(false);
    }
}

/// No two records have the same serial number.
pub open spec fn serials_distinct(records: Seq<RecordView>) -> bool {
    forall|i: int, j: int|
        0 <= i < j < records.len() ==> (#[trigger] records[i]).serial != (
        #[trigger] records[j]).serial
}

/// Taking a record out strikes its token off for its owner in the index.
pub proof fn lemma_index_remove(records: Seq<RecordView>, at: int)
    requires
        serials_distinct(records),
        0 <= at < records.len(),
    ensures
        held_by(index_of_records(records), records[at].owner).contains(records[at].serial),
        index_of_records(records.remove(at)) == struck(
            index_of_records(records),
            records[at].owner,
            records[at].serial,
        ),
{
    let before = index_of_records(records);
    let shorter = records.remove(at);
    let gone = records[at];
    lemma_index_of_records(records);
    lemma_index_of_records(shorter);
    lemma_struck(before, gone.owner, gone.serial);
    assert(record_lists(records, gone.owner, gone.serial));
    assert forall|owner: Seq<char>, serial: u64|
        lists(index_of_records(shorter), owner, serial) <==> lists(
            struck(before, gone.owner, gone.serial),
            owner,
            serial,
        ) by {
        if record_lists(shorter, owner, serial) {
            let i = choose|i: int|
                0 <= i < shorter.len() && (#[trigger] shorter[i]).owner == owner
                    && shorter[i].serial == serial;
            let was = if i < at { i } else { i + 1 };
            assert(shorter[i] == records[was]);
            assert(record_lists(records, owner, serial));
            if was < at {
                assert(records[was].serial != records[at].serial);
            } else {
                assert(records[at].serial != records[was].serial);
            }
        }
        if record_lists(records, owner, serial) && !(owner == gone.owner && serial == gone.serial) {
            let was = choose|was: int|
                0 <= was < records.len() && (#[trigger] records[was]).owner == owner
                    && records[was].serial == serial;
            assert(was != at);
            let i = if was < at { was } else { was - 1 };
            assert(shorter[i] == records[was]);
            assert(record_lists(shorter, owner, serial));
        }
    }
    lemma_same_index(index_of_records(shorter), struck(before, gone.owner, gone.serial));
}

/// Giving the token of a record to a new owner strikes it off for the owner
/// it had and lists it for the new one.
pub proof fn lemma_index_update(records: Seq<RecordView>, at: int, new_owner: Seq<char>)
    requires
        serials_distinct(records),
        0 <= at < records.len(),
    ensures
        held_by(index_of_records(records), records[at].owner).contains(records[at].serial),
        !held_by(
            struck(index_of_records(records), records[at].owner, records[at].serial),
            new_owner,
        ).contains(records[at].serial),
        index_of_records(records.update(at, RecordView { owner: new_owner, ..records[at] }))
            == listed(
            struck(index_of_records(records), records[at].owner, records[at].serial),
            new_owner,
            records[at].serial,
        ),
{
    let before = index_of_records(records);
    let was = records[at];
    let changed = records.update(at, RecordView { owner: new_owner, ..was });
    let without = struck(before, was.owner, was.serial);
    lemma_index_of_records(records);
    lemma_index_of_records(changed);
    lemma_struck(before, was.owner, was.serial);
    lemma_listed(without, new_owner, was.serial);
    assert(record_lists(records, was.owner, was.serial));
    assert forall|owner: Seq<char>| record_lists(records, owner, was.serial) implies owner
        == was.owner by {
        let i = choose|i: int|
            0 <= i < records.len() && (#[trigger] records[i]).owner == owner && records[i].serial
                == was.serial;
        if i < at {
            assert(records[i].serial != records[at].serial);
        } else if at < i {
            assert(records[at].serial != records[i].serial);
        }
    }
    assert forall|owner: Seq<char>, serial: u64|
        lists(index_of_records(changed), owner, serial) <==> lists(
            listed(without, new_owner, was.serial),
            owner,
            serial,
        ) by {
        if record_lists(changed, owner, serial) {
            let i = choose|i: int|
                0 <= i < changed.len() && (#[trigger] changed[i]).owner == owner
                    && changed[i].serial == serial;
            if i != at {
                assert(changed[i] == records[i]);
                assert(record_lists(records, owner, serial));
                if i < at {
                    assert(records[i].serial != records[at].serial);
                } else {
                    assert(records[at].serial != records[i].serial);
                }
            }
        }
        if record_lists(records, owner, serial) && !(owner == was.owner && serial == was.serial) {
            let i = choose|i: int|
                0 <= i < records.len() && (#[trigger] records[i]).owner == owner
                    && records[i].serial == serial;
            assert(i != at);
            assert(changed[i] == records[i]);
            assert(record_lists(changed, owner, serial));
        }
        if owner == new_owner && serial == was.serial {
            assert(changed[at].owner == owner && changed[at].serial == serial);
            assert(record_lists(changed, owner, serial));
        }
    }
    lemma_same_index(index_of_records(changed), listed(without, new_owner, was.serial));
    if held_by(without, new_owner).contains(was.serial) {
        assert(lists(without, new_owner, was.serial));
        assert(lists(before, new_owner, was.serial));
        assert(record_lists(records, new_owner, was.serial));
    }
}

/// What the registry keeps of a live token: its serial number, its owner and
/// its metadata.
#[derive(Clone, Debug, PartialEq, Eq)]
pub struct Record {
    pub serial: u64,
    pub owner_id: String,
    pub metadata: Metadata,
}

/// What a `Record` holds.
pub open spec fn record_view(record: Record) -> RecordView {
    RecordView { serial: record.serial, owner: record.owner_id@, metadata: record.metadata@ }
}

/// What a list of records holds.
pub open spec fn record_views(records: Seq<Record>) -> Seq<RecordView> {
    records.map_values(|r: Record| record_view(r))
}

/// What the approvals of a token hold.
pub open spec fn approvals_view(approvals: Approvals) -> ApprovalsView {
    ApprovalsView { next_id: approvals.next_id(), granted: approvals.granted() }
}

/// What a list of approvals holds.
pub open spec fn ledger_views(ledger: Seq<Approvals>) -> Seq<ApprovalsView> {
    ledger.map_values(|a: Approvals| approvals_view(a))
}

/// The approvals kept for one identifier, as plain values: the id of its next
/// approval, and its grants.
#[derive(Clone, Debug, PartialEq, Eq)]
pub struct LedgerEntry {
    pub next_id: u64,
    pub grants: Vec<Grant>,
}

/// What a `LedgerEntry` holds.
pub open spec fn ledger_entry_view(entry: LedgerEntry) -> ApprovalsView {
    ApprovalsView { next_id: entry.next_id, granted: to_map(grant_entries(entry.grants@)) }
}

/// What a list of ledger entries holds.
pub open spec fn ledger_entry_views(entries: Seq<LedgerEntry>) -> Seq<ApprovalsView> {
    entries.map_values(|e: LedgerEntry| ledger_entry_view(e))
}

/// The state of a registry as plain values, as it is kept between invocations.
#[derive(Clone, Debug, PartialEq, Eq)]
pub struct RegistrySnapshot {
    pub owner_id: String,
    pub agents: Vec<String>,
    pub config: Config,
    pub live_count: u64,
    pub retired: Vec<u64>,
    pub records: Vec<Record>,
    pub ledger: Vec<LedgerEntry>,
}

impl View for RegistrySnapshot {
    type V = RegistryView;

    open spec fn view(&self) -> RegistryView {
        RegistryView {
            records: record_views(self.records@),
            live_count: self.live_count as nat,
            retired: self.retired@,
            approvals: ledger_entry_views(self.ledger@),
            owner: self.owner_id@,
            agents: names(self.agents@).to_set(),
            config: self.config,
        }
    }
}

impl RegistrySnapshot {
    /// The snapshot holds a well-formed state, and none of its lists of
    /// grants names an account twice.
    pub open spec fn sound(&self) -> bool {
        &&& self@.wf()
        &&& forall|k: int|
            0 <= k < self.ledger.len() ==> keys_distinct(
                grant_entries((#[trigger] self.ledger[k]).grants@),
            )
    }
}

/// Whether each entry of a ledger fits together as the approvals of a token.
pub open spec fn ledger_fits(ledger: Seq<LedgerEntry>) -> bool {
    forall|k: int|
        0 <= k < ledger.len() ==> Approvals::fits(
            (#[trigger] ledger[k]).next_id,
            grant_entries(ledger[k].grants@),
        )
}

/// Whether a list of records fits a pool of retired serial numbers, of which
/// `issued` were handed out: each record has a serial number that was handed
/// out and is not retired, no two have the same, and, where an account may
/// own one token only, no two have the same owner.
pub open spec fn records_fit(
    records: Seq<RecordView>,
    retired: Seq<u64>,
    issued: int,
    single_ownership: bool,
) -> bool {
    &&& forall|i: int| 0 <= i < records.len() ==> (#[trigger] records[i]).serial < issued
    &&& forall|i: int| 0 <= i < records.len() ==> !retired.contains((#[trigger] records[i]).serial)
    &&& forall|i: int, j: int|
        0 <= i < j < records.len() ==> (#[trigger] records[i]).serial != (
        #[trigger] records[j]).serial
    &&& single_ownership ==> forall|i: int, j: int|
        0 <= i < j < records.len() ==> (#[trigger] records[i]).owner != (
        #[trigger] records[j]).owner
}

/// Whether no retired serial number carries a grant in the ledger.
pub open spec fn pool_bare(retired: Seq<u64>, ledger: Seq<LedgerEntry>) -> bool {
    forall|j: int|
        0 <= j < retired.len() ==> ledger[(#[trigger] retired[j]) as int].grants@.len() == 0
}

/// A snapshot is sound exactly when its parts fit together.
pub proof fn lemma_sound(snapshot: RegistrySnapshot)
    ensures
        snapshot.sound() <==> {
            &&& IdentifierAllocator::fits(snapshot.live_count, snapshot.retired@)
            &&& snapshot.records.len() == snapshot.live_count
            &&& snapshot.ledger.len() == snapshot.live_count + snapshot.retired.len()
            &&& ledger_fits(snapshot.ledger@)
            &&& records_fit(
                record_views(snapshot.records@),
                snapshot.retired@,
                snapshot.live_count + snapshot.retired.len(),
                snapshot.config.single_ownership,
            )
            &&& pool_bare(snapshot.retired@, snapshot.ledger@)
        },
{
    let state = snapshot@;
    let ledger = snapshot.ledger@;
    assert(state.approvals.len() == ledger.len());
    assert forall|k: int| 0 <= k < ledger.len() implies #[trigger] state.approvals[k]
        == ledger_entry_view(ledger[k]) by {}
    if snapshot.sound() {
        assert forall|k: int| 0 <= k < ledger.len() implies Approvals::fits(
            (#[trigger] ledger[k]).next_id,
            grant_entries(ledger[k].grants@),
        ) by {
            let entries = grant_entries(ledger[k].grants@);
            assert(keys_distinct(grant_entries(snapshot.ledger[k].grants@)));
            assert(state.approvals[k].next_id >= 1);
            lemma_to_map_keys(entries);
            assert forall|i: int| 0 <= i < entries.len() implies 1 <= (#[trigger] entries[i]).1
                < ledger[k].next_id by {
                lemma_to_map_value(entries, i);
                assert(state.approvals[k].granted.contains_key(entries[i].0));
            }
        }
        assert forall|j: int| 0 <= j < snapshot.retired@.len() implies ledger[(
        #[trigger] snapshot.retired@[j]) as int].grants@.len() == 0 by {
            let serial = snapshot.retired@[j] as int;
            let entries = grant_entries(ledger[serial].grants@);
            assert(state.retired[j] < state.issued());
            assert(state.approvals[state.retired[j] as int].granted == Map::<
                Seq<char>,
                u64,
            >::empty());
            if entries.len() > 0 {
                lemma_to_map_keys(entries);
                assert(has_key(entries, entries[0].0));
                assert(state.approvals[serial].granted.contains_key(entries[0].0));
            }
        }
    }
    if IdentifierAllocator::fits(snapshot.live_count, snapshot.retired@) && snapshot.records.len()
        == snapshot.live_count && snapshot.ledger.len() == snapshot.live_count
        + snapshot.retired.len() && ledger_fits(ledger) && records_fit(
        record_views(snapshot.records@),
        snapshot.retired@,
        snapshot.live_count + snapshot.retired.len(),
        snapshot.config.single_ownership,
    ) && pool_bare(snapshot.retired@, ledger) {
        assert forall|k: int| 0 <= k < snapshot.ledger.len() implies keys_distinct(
            grant_entries((#[trigger] snapshot.ledger[k]).grants@),
        ) by {
            assert(Approvals::fits(ledger[k].next_id, grant_entries(ledger[k].grants@)));
        }
        assert forall|k: int, account: Seq<char>|
            0 <= k < state.approvals.len() && #[trigger] state.approvals[k].granted.contains_key(
                account,
            ) implies 1 <= state.approvals[k].granted[account] < state.approvals[k].next_id by {
            let entries = grant_entries(ledger[k].grants@);
            assert(Approvals::fits(ledger[k].next_id, entries));
            lemma_to_map_keys(entries);
            let at = choose|at: int| 0 <= at < entries.len() && (#[trigger] entries[at]).0 == account;
            lemma_to_map_value(entries, at);
        }
        assert forall|k: int| 0 <= k < state.approvals.len() implies (#[trigger] state.approvals[k]).next_id
            >= 1 by {
            assert(Approvals::fits(ledger[k].next_id, grant_entries(ledger[k].grants@)));
        }
        assert forall|j: int| 0 <= j < state.retired.len() implies state.approvals[(
        #[trigger] state.retired[j]) as int].granted == Map::<Seq<char>, u64>::empty() by {
            let serial = state.retired[j] as int;
            assert(ledger[serial].grants@.len() == 0);
            assert(grant_entries(ledger[serial].grants@) =~= Seq::empty());
        }
        assert(state.wf());
    }
}

/// The authoritative store of tokens: which identifiers are live, who owns
/// each, what it carries and who is approved to move it.  Beside the record
/// of each token it keeps an index of the tokens of each owner, and every
/// change of a record changes the index with it, so that the two sides of
/// ownership agree.
pub struct TokenRegistry {
    guard: AuthorizationGuard,
    allocator: IdentifierAllocator,
    records: Vec<Record>,
    index: OwnershipIndex,
    ledger: Vec<Approvals>,
    config: Config,
}

impl View for TokenRegistry {
    type V = RegistryView;

    closed spec fn view(&self) -> RegistryView {
        RegistryView {
            records: record_views(self.records@),
            live_count: self.allocator.live_count(),
            retired: self.allocator.retired(),
            approvals: ledger_views(self.ledger@),
            owner: self.guard.owner(),
            agents: self.guard.agents(),
            config: self.config,
        }
    }
}

impl TokenRegistry {
    /// The registry's parts fit together: the index of ownership lists for
    /// each owner the tokens that the records give to it, and nothing else;
    /// and the state is well-formed.
    pub closed spec fn wf(&self) -> bool {
        &&& self.allocator.wf()
        &&& forall|k: int| 0 <= k < self.ledger.len() ==> (#[trigger] self.ledger[k]).wf()
        &&& self.index.wf()
        &&& self.index.owned() == self@.ownership()
        &&& self@.wf()
    }

    /// The state of a registry that holds together is well-formed.
    pub proof fn lemma_wf(&self)
        requires
            self.wf(),
        ensures
            self@.wf(),
    {
    }

    /// An empty registry that belongs to `owner` and follows `config`.
    pub fn new(owner: String, config: Config) -> (registry: TokenRegistry)
        ensures
            registry.wf(),
            registry@ == (RegistryView {
                records: Seq::empty(),
                live_count: 0,
                retired: Seq::empty(),
                approvals: Seq::empty(),
                owner: owner@,
                agents: Set::empty(),
                config,
            }),
    {
        let registry = TokenRegistry {
            guard: AuthorizationGuard::new(owner),
            allocator: IdentifierAllocator::new(),
            records: Vec::new(),
            index: OwnershipIndex::new(),
            ledger: Vec::new(),
            config,
        };
        assert(registry@.records =~= Seq::empty());
        assert(registry@.approvals =~= Seq::empty());
        assert(registry@.ownership() =~= Map::empty());
        registry
    }

    /// The rules of this registry.
    pub fn config(&self) -> (config: Config)
        ensures
            config == self@.config,
    {
        self.config
    }

    /// The owner of this registry.
    pub fn owner_id(&self) -> (owner: &String)
        ensures
            owner@ == self@.owner,
    {
        self.guard.owner_id()
    }

    /// Tells whether `account` is an authorized agent.
    pub fn is_agent(&self, account: &String) -> (yes: bool)
        ensures
            yes == self@.agents.contains(account@),
    {
        self.guard.is_agent(account)
    }

    /// Tells whether `account` may mint under the rules of this registry.
    pub fn can_mint(&self, account: &String) -> (yes: bool)
        ensures
            yes == self@.may_mint(account@),
    {
        if self.config.owner_only_mint {
            self.guard.is_owner(account)
        } else {
            self.guard.can_mint(account)
        }
    }

    /// The number of live tokens.
    pub fn total_supply(&self) -> (count: u64)
        requires
            self.wf(),
        ensures
            count == self@.records.len(),
            count == self@.live_count,
    {
        self.allocator.count()
    }

    /// The number of retired identifiers.
    pub fn retired_count(&self) -> (count: usize)
        ensures
            count == self@.retired.len(),
    {
        self.allocator.retired_count()
    }

    /// Tells whether the identifier `token_id` waits in the pool of retired identifiers.
    pub fn is_retired(&self, token_id: &String) -> (yes: bool)
        requires
            self.wf(),
        ensures
            yes == self@.retired_ids().contains(token_id@),
    {
        match parse_token_id(token_id) {
            Some(serial) => {
                let yes = self.allocator.is_retired(serial);
                proof {
                    if yes {
                        let j = choose|j: int|
                            0 <= j < self@.retired.len() && self@.retired[j] == serial;
                        assert(token_id@ == id_text(self@.retired[j] as nat));
                    }
                    if self@.retired_ids().contains(token_id@) {
                        let j = choose|j: int|
                            0 <= j < self@.retired.len() && token_id@ == id_text(
                                (#[trigger] self@.retired[j]) as nat,
                            );
                        lemma_id_text_injective(self@.retired[j] as nat, serial as nat);
                    }
                }
                yes
            },
            None => {
                proof {
                    if self@.retired_ids().contains(token_id@) {
                        let j = choose|j: int|
                            0 <= j < self@.retired.len() && token_id@ == id_text(
                                (#[trigger] self@.retired[j]) as nat,
                            );
                        assert(is_token_id(token_id@));
                    }
                }
                false
            },
        }
    }

    fn find(&self, token_id: &String) -> (at: Option<usize>)
        requires
            self.wf(),
        ensures
            at is Some <==> self@.has_token(token_id@),
            at matches Some(i) ==> {
                &&& i < self@.records.len()
                &&& token_id@ == id_text(self@.records[i as int].serial as nat)
                &&& self@.index_of(token_id@) == i
                &&& self@.records[i as int].serial == self.records[i as int].serial
            },
    {
        match parse_token_id(token_id) {
            Some(serial) => {
                let mut i: usize = 0;
                while i < self.records.len()
                    invariant
                        self.wf(),
                        token_id@ == id_text(serial as nat),
                        i <= self.records.len(),
                        self@.records.len() == self.records.len(),
                        forall|j: int| 0 <= j < i ==> (#[trigger] self@.records[j]).serial != serial,
                    decreases self.records.len() - i,
                {
                    if self.records[i].serial == serial {
                        proof {
                            self@.lemma_index_of(token_id@, i as int);
                        }
                        return Some(i);
                    }
                    i = i + 1;
                }
                proof {
                    if self@.has_token(token_id@) {
                        let at = self@.index_of(token_id@);
                        lemma_id_text_injective(self@.records[at].serial as nat, serial as nat);
                    }
                }
                None
            },
            None => {
                proof {
                    if self@.has_token(token_id@) {
                        let at = self@.index_of(token_id@);
                        assert(is_token_id(token_id@));
                    }
                }
                None
            },
        }
    }

    fn present(&self, at: usize) -> (token: Token)
        requires
            self.wf(),
            at < self@.records.len(),
        ensures
            token@ == self@.token_at(at as int),
    {
        let record = &self.records[at];
        assert(self@.records[at as int] == record_view(*record));
        assert(self@.approvals[record.serial as int] == approvals_view(
            self.ledger[record.serial as int],
        ));
        Token {
            token_id: token_id_for(record.serial),
            owner_id: record.owner_id.clone(),
            metadata: record.metadata.duplicate(),
            approved_account_ids: self.ledger[record.serial as usize].list(),
        }
    }

    /// The live token with identifier `token_id`, if there is one.
    pub fn token(&self, token_id: &String) -> (token: Option<Token>)
        requires
            self.wf(),
        ensures
            token is Some <==> self@.has_token(token_id@),
            token matches Some(t) ==> Some(t@) == self@.token(token_id@),
    {
        match self.find(token_id) {
            Some(at) => Some(self.present(at)),
            None => None,
        }
    }

    /// Tells whether `account` owns a live token.
    pub fn owns_token(&self, account: &String) -> (yes: bool)
        requires
            self.wf(),
        ensures
            yes == self@.owns_any(account@),
    {
        self.index.owns(account)
    }

    /// The number of live tokens that `account` owns.
    pub fn supply_for_owner(&self, account: &String) -> (count: u64)
        requires
            self.wf(),
        ensures
            count == self@.owned_among(account@, self@.records.len() as int),
    {
        let mut count: u64 = 0;
        let mut i: usize = 0;
        while i < self.records.len()
            invariant
                i <= self.records.len(),
                self@.records.len() == self.records.len(),
                self.records.len() <= MAX_SUPPLY,
                count <= i,
                count == self@.owned_among(account@, i as int),
            decreases self.records.len() - i,
        {
            assert(self@.records[i as int] == record_view(self.records[i as int]));
            if self.records[i].owner_id == *account {
                count = count + 1;
            }
            i = i + 1;
        }
        count
    }

    fn admit_mint(&self, caller: &String, owner: &String) -> (admitted: Result<u64, Error>)
        requires
            self.wf(),
        ensures
            admitted is Ok <==> self@.mint_refusal(caller@, owner@) is None,
            admitted matches Err(e) ==> self@.mint_refusal(caller@, owner@) == Some(e),
            admitted matches Ok(serial) ==> serial == self@.next_serial() && serial < MAX_SUPPLY
                && self.allocator.is_next(serial) && self.allocator.has_room(),
    {
        let serial = match self.allocator.allocate() {
            Ok(serial) => serial,
            Err(e) => {
                return Err(e);
            },
        };
        proof {
            self@.lemma_next_serial(serial);
        }
        if self.config.single_ownership && self.owns_token(owner) {
            return Err(Error::DuplicateOwnership);
        }
        if !self.can_mint(caller) {
            return Err(Error::Unauthorized);
        }
        Ok(serial)
    }

    /// Tells why a mint for `owner`, asked for by `caller`, would be refused.
    pub fn check_mint(&self, caller: &String, owner: &String) -> (checked: Result<(), Error>)
        requires
            self.wf(),
        ensures
            checked is Ok <==> self@.mint_refusal(caller@, owner@) is None,
            checked matches Err(e) ==> self@.mint_refusal(caller@, owner@) == Some(e),
    {
        match self.admit_mint(caller, owner) {
            Ok(_) => Ok(()),
            Err(e) => Err(e),
        }
    }

    /// Mints a token for `owner`: it receives the next identifier, and its
    /// metadata is `metadata` stamped with the instant `now` and the group tag
    /// `tag`.  A refused mint changes nothing.
    pub fn mint(
        &mut self,
        caller: &String,
        owner: String,
        metadata: Metadata,
        now: u64,
        tag: String,
    ) -> (minted: Result<Token, Error>)
        requires
            old(self).wf(),
        ensures
            final(self).wf(),
            minted is Ok <==> old(self)@.mint_refusal(caller@, owner@) is None,
            minted matches Err(e) ==> old(self)@.mint_refusal(caller@, owner@) == Some(e)
                && final(self)@ == old(self)@,
            minted matches Ok(token) ==> {
                &&& final(self)@ == old(self)@.minted(owner@, metadata@.stamped(now, tag@))
                &&& token@ == old(self)@.minted_token(owner@, metadata@.stamped(now, tag@))
            },
    {
        let serial = match self.admit_mint(caller, &owner) {
            Ok(serial) => serial,
            Err(e) => {
                return Err(e);
            },
        };
        let ghost before = self@;
        let ghost stamped_view = metadata@.stamped(now, tag@);
        let fresh = self.allocator.retired_count() == 0;
        self.allocator.commit(serial);
        if fresh {
            let ghost slots = ledger_views(self.ledger@);
            self.ledger.push(Approvals::new());
            assert(ledger_views(self.ledger@) =~= slots.push(
                ApprovalsView { next_id: 1, granted: Map::empty() },
            ));
        }
        let stamped = metadata.stamp(now, tag);
        let token = Token {
            token_id: token_id_for(serial),
            owner_id: owner.clone(),
            metadata: stamped.duplicate(),
            approved_account_ids: Vec::new(),
        };
        proof {
            lemma_next_serial_exists(before);
            assert forall|i: int| 0 <= i < before.records.len() implies (
            #[trigger] before.records[i]).serial != serial by {
                assert(before.records[i].serial < before.issued());
                assert(!before.retired.contains(before.records[i].serial));
            }
            lemma_index_push(
                before.records,
                RecordView { serial, owner: owner@, metadata: stamped_view },
            );
        }
        self.index.add(&owner, serial);
        let record = Record { serial, owner_id: owner, metadata: stamped };
        self.records.push(record);
        proof {
            assert(self@.records =~= before.records.push(
                RecordView { serial, owner: owner@, metadata: stamped_view },
            ));
            assert(grant_entries(token.approved_account_ids@) =~= Seq::empty());
            assert(self@ == before.minted(owner@, stamped_view));
            lemma_minted_wf(before, caller@, owner@, stamped_view);
        }
        Ok(token)
    }

    fn admit_burn(&self, caller: &String, token_id: &String) -> (admitted: Result<usize, Error>)
        requires
            self.wf(),
        ensures
            admitted is Ok <==> self@.burn_refusal(caller@, token_id@) is None,
            admitted matches Err(e) ==> self@.burn_refusal(caller@, token_id@) == Some(e),
            admitted matches Ok(at) ==> at < self.records.len() && at == self@.index_of(token_id@),
    {
        match self.find(token_id) {
            None => Err(Error::NotFound),
            Some(at) => {
                assert(self@.records[at as int] == record_view(self.records[at as int]));
                if *caller != self.records[at].owner_id && !self.guard.is_owner(caller) {
                    Err(Error::Unauthorized)
                } else {
                    Ok(at)
                }
            },
        }
    }

    /// Tells why `caller` would be refused the burn of the token `token_id`.
    pub fn check_burn(&self, caller: &String, token_id: &String) -> (checked: Result<(), Error>)
        requires
            self.wf(),
        ensures
            checked is Ok <==> self@.burn_refusal(caller@, token_id@) is None,
            checked matches Err(e) ==> self@.burn_refusal(caller@, token_id@) == Some(e),
    {
        match self.admit_burn(caller, token_id) {
            Ok(_) => Ok(()),
            Err(e) => Err(e),
        }
    }

    /// Burns the token `token_id` for its owner or for the owner of the
    /// registry: the token leaves the registry with its approvals, and its
    /// identifier joins the pool of retired identifiers.  Returns the token as
    /// it was.  A refused burn changes nothing.
    pub fn burn(&mut self, caller: &String, token_id: &String) -> (burned: Result<Token, Error>)
        requires
            old(self).wf(),
        ensures
            final(self).wf(),
            burned is Ok <==> old(self)@.burn_refusal(caller@, token_id@) is None,
            burned matches Err(e) ==> old(self)@.burn_refusal(caller@, token_id@) == Some(e)
                && final(self)@ == old(self)@,
            burned matches Ok(token) ==> {
                &&& final(self)@ == old(self)@.burned(token_id@)
                &&& Some(token@) == old(self)@.token(token_id@)
            },
    {
        let at = match self.admit_burn(caller, token_id) {
            Ok(at) => at,
            Err(e) => {
                return Err(e);
            },
        };
        let ghost before = self@;
        let token = self.present(at);
        let serial = self.records[at].serial;
        assert(before.records[at as int] == record_view(self.records[at as int]));
        proof {
            lemma_index_remove(before.records, at as int);
        }
        self.index.remove(&token.owner_id, serial);
        self.records.remove(at);
        self.allocator.retire(serial);
        self.ledger[serial as usize].revoke_all();
        proof {
            let after = self@;
            assert(after.records =~= before.records.remove(at as int));
            assert(after.approvals =~= before.approvals.update(
                serial as int,
                ApprovalsView { granted: Map::empty(), ..before.approvals[serial as int] },
            ));
            assert(after == before.burned(token_id@));
            lemma_burned_wf(before, token_id@);
            assert forall|k: int| 0 <= k < self.ledger.len() implies (#[trigger] self.ledger[k]).wf() by {}
        }
        Ok(token)
    }

    fn admit_transfer(
        &self,
        caller: &String,
        receiver: &String,
        token_id: &String,
        approval_id: Option<u64>,
        now: u64,
    ) -> (admitted: Result<usize, Error>)
        requires
            self.wf(),
        ensures
            admitted is Ok <==> self@.transfer_refusal(
                caller@,
                receiver@,
                token_id@,
                approval_id,
                now,
            ) is None,
            admitted matches Err(e) ==> self@.transfer_refusal(
                caller@,
                receiver@,
                token_id@,
                approval_id,
                now,
            ) == Some(e),
            admitted matches Ok(at) ==> at < self.records.len() && at == self@.index_of(token_id@),
    {
        if self.config.single_ownership && self.owns_token(receiver) {
            return Err(Error::DuplicateOwnership);
        }
        let at = match self.find(token_id) {
            Some(at) => at,
            None => {
                return Err(Error::NotFound);
            },
        };
        let record = &self.records[at];
        assert(self@.records[at as int] == record_view(*record));
        assert(self@.approvals[record.serial as int] == approvals_view(
            self.ledger[record.serial as int],
        ));
        match self.config.transfer_lock_seconds {
            Some(seconds) => {
                let issued = match record.metadata.issued_at {
                    Some(instant) => instant,
                    None => 0,
                };
                let elapsed: u64 = if now >= issued {
                    now - issued
                } else {
                    0
                };
                if (elapsed as u128) < (seconds as u128) * (CLOCK_UNITS_PER_SECOND as u128) {
                    return Err(Error::TransferLocked);
                }
            },
            None => {},
        }
        if *caller != record.owner_id {
            match self.ledger[record.serial as usize].approval_of(caller) {
                None => {
                    return Err(Error::Unauthorized);
                },
                Some(actual) => match approval_id {
                    Some(given) => {
                        if given != actual {
                            return Err(Error::ApprovalMismatch);
                        }
                    },
                    None => {},
                },
            }
        }
        if *receiver == record.owner_id {
            return Err(Error::DuplicateOwnership);
        }
        Ok(at)
    }


    /// Tells why `caller` would be refused the transfer of the token
    /// `token_id` to `receiver` at the instant `now`.
    pub fn check_transfer(
        &self,
        caller: &String,
        receiver: &String,
        token_id: &String,
        approval_id: Option<u64>,
        now: u64,
    ) -> (checked: Result<(), Error>)
        requires
            self.wf(),
        ensures
            checked is Ok <==> self@.transfer_refusal(
                caller@,
                receiver@,
                token_id@,
                approval_id,
                now,
            ) is None,
            checked matches Err(e) ==> self@.transfer_refusal(
                caller@,
                receiver@,
                token_id@,
                approval_id,
                now,
            ) == Some(e),
    {
        match self.admit_transfer(caller, receiver, token_id, approval_id, now) {
            Ok(_) => Ok(()),
            Err(e) => Err(e),
        }
    }

    fn hand_over(&mut self, at: usize, new_owner: String) -> (previous_owner: String)
        requires
            old(self).wf(),
            at < old(self)@.records.len(),
            old(self)@.config.single_ownership ==> !old(self)@.owns_any(new_owner@) || old(
                self,
            )@.records[at as int].owner == new_owner@,
        ensures
            previous_owner@ == old(self)@.records[at as int].owner,
            final(self)@ == (RegistryView {
                records: old(self)@.records.update(
                    at as int,
                    RecordView { owner: new_owner@, ..old(self)@.records[at as int] },
                ),
                ..old(self)@
            }),
            final(self).ledger == old(self).ledger,
            final(self).allocator == old(self).allocator,
            forall|i: int|
                0 <= i < old(self)@.records.len() ==> final(self).records[i].serial == old(
                    self,
                ).records[i].serial,
            final(self).wf(),
    {
        let ghost before = self@;
        let serial = self.records[at].serial;
        let metadata = self.records[at].metadata.duplicate();
        assert(before.records[at as int] == record_view(self.records[at as int]));
        let previous_owner = self.records[at].owner_id.clone();
        proof {
            lemma_index_update(before.records, at as int, new_owner@);
        }
        self.index.remove(&previous_owner, serial);
        self.index.add(&new_owner, serial);
        self.records.set(at, Record { serial, owner_id: new_owner, metadata });
        proof {
            let after = self@;
            assert(after.records =~= before.records.update(
                at as int,
                RecordView { owner: new_owner@, ..before.records[at as int] },
            ));
            assert forall|i: int| 0 <= i < after.records.len() implies (#[trigger] after.records[i]).serial
                == before.records[i].serial by {}
            assert forall|i: int, j: int| 0 <= i < j < after.records.len() implies (
            #[trigger] after.records[i]).serial != (#[trigger] after.records[j]).serial by {
                assert(before.records[i].serial != before.records[j].serial);
            }
            assert forall|i: int| 0 <= i < after.records.len() implies !after.retired.contains(
                (#[trigger] after.records[i]).serial,
            ) by {
                assert(!before.retired.contains(before.records[i].serial));
            }
            assert forall|i: int| 0 <= i < after.records.len() implies (#[trigger] after.records[i]).serial
                < after.issued() by {
                assert(before.records[i].serial < before.issued());
            }
            if before.config.single_ownership {
                assert forall|i: int, j: int| 0 <= i < j < after.records.len() implies (
                #[trigger] after.records[i]).owner != (#[trigger] after.records[j]).owner by {
                    assert(before.records[i].owner != before.records[j].owner);
                    if i != at && j != at {
                        assert(after.records[i] == before.records[i]);
                        assert(after.records[j] == before.records[j]);
                    } else if i == at {
                        assert(after.records[j] == before.records[j]);
                    } else {
                        assert(after.records[i] == before.records[i]);
                    }
                }
            }
            assert(after.wf());
        }
        previous_owner
    }

    /// Transfers the token `token_id` to `receiver` for its owner, or for an
    /// account that the owner approved.  The approvals of the token are
    /// cleared; they are returned with the previous owner.  A refused transfer
    /// changes nothing.
    pub fn transfer(
        &mut self,
        caller: &String,
        receiver: String,
        token_id: &String,
        approval_id: Option<u64>,
        now: u64,
    ) -> (moved: Result<Handover, Error>)
        requires
            old(self).wf(),
        ensures
            final(self).wf(),
            moved is Ok <==> old(self)@.transfer_refusal(
                caller@,
                receiver@,
                token_id@,
                approval_id,
                now,
            ) is None,
            moved matches Err(e) ==> old(self)@.transfer_refusal(
                caller@,
                receiver@,
                token_id@,
                approval_id,
                now,
            ) == Some(e) && final(self)@ == old(self)@,
            moved matches Ok(handover) ==> {
                &&& final(self)@ == old(self)@.handed_over(token_id@, receiver@, Map::empty())
                &&& handover.previous_owner@ == old(self)@.records[old(self)@.index_of(
                    token_id@,
                )].owner
                &&& to_map(grant_entries(handover.approvals@)) == old(self)@.granted(token_id@)
            },
    {
        let at = match self.admit_transfer(caller, &receiver, token_id, approval_id, now) {
            Ok(at) => at,
            Err(e) => {
                return Err(e);
            },
        };
        let ghost before = self@;
        let serial = self.records[at].serial;
        assert(before.approvals[serial as int] == approvals_view(self.ledger[serial as int]));
        let approvals = self.ledger[serial as usize].list();
        let previous_owner = self.hand_over(at, receiver);
        let ghost moved = *self;
        assert(!moved@.retired.contains(moved@.records[at as int].serial));
        self.ledger[serial as usize].revoke_all();
        proof {
            Self::lemma_ledger_changed(moved, *self, serial as int);
            assert(self@ == before.handed_over(token_id@, receiver@, Map::empty()));
        }
        Ok(Handover { previous_owner, approvals })
    }

    /// Settles a transfer that waited for the receiver's answer.  Where the
    /// transfer is undone, the token goes back to `previous_owner` with the
    /// approvals in `approvals`; otherwise nothing changes.  Returns whether
    /// the transfer stands.
    pub fn resolve_transfer(
        &mut self,
        previous_owner: String,
        receiver: &String,
        token_id: &String,
        approvals: &Vec<Grant>,
        must_revert: bool,
    ) -> (stands: bool)
        requires
            old(self).wf(),
        ensures
            final(self).wf(),
            stands == !old(self)@.reverts(previous_owner@, receiver@, token_id@, must_revert),
            stands ==> final(self)@ == old(self)@,
            !stands ==> final(self)@ == old(self)@.handed_over(
                token_id@,
                previous_owner@,
                restored(grant_entries(approvals@), old(self)@.next_approval_id(token_id@)),
            ),
    {
        if !must_revert {
            return true;
        }
        let at = match self.find(token_id) {
            Some(at) => at,
            None => {
                return true;
            },
        };
        assert(self@.records[at as int] == record_view(self.records[at as int]));
        if self.records[at].owner_id != *receiver {
            return true;
        }
        if self.config.single_ownership && self.owns_token(&previous_owner) {
            return true;
        }
        let ghost before = self@;
        let serial = self.records[at].serial;
        assert(before.approvals[serial as int] == approvals_view(self.ledger[serial as int]));
        self.hand_over(at, previous_owner);
        let ghost moved = *self;
        assert(!moved@.retired.contains(moved@.records[at as int].serial));
        self.ledger[serial as usize].restore(approvals);
        proof {
            Self::lemma_ledger_changed(moved, *self, serial as int);
            assert(self@ == before.handed_over(
                token_id@,
                previous_owner@,
                restored(grant_entries(approvals@), before.next_approval_id(token_id@)),
            ));
        }
        false
    }

    fn check_owner(&self, caller: &String, token_id: &String) -> (found: Result<usize, Error>)
        requires
            self.wf(),
        ensures
            found is Ok <==> self@.owner_refusal(caller@, token_id@) is None,
            found matches Err(e) ==> self@.owner_refusal(caller@, token_id@) == Some(e),
            found matches Ok(at) ==> at < self.records.len() && at == self@.index_of(token_id@)
                && self@.records[at as int].serial == self.records[at as int].serial,
    {
        match self.find(token_id) {
            None => Err(Error::NotFound),
            Some(at) => {
                assert(self@.records[at as int] == record_view(self.records[at as int]));
                if *caller != self.records[at].owner_id {
                    Err(Error::Unauthorized)
                } else {
                    Ok(at)
                }
            },
        }
    }

    proof fn lemma_ledger_changed(before: TokenRegistry, after: TokenRegistry, serial: int)
        requires
            before.wf(),
            after.guard == before.guard,
            after.allocator == before.allocator,
            after.records == before.records,
            after.index == before.index,
            after.config == before.config,
            after.ledger.len() == before.ledger.len(),
            0 <= serial < before.ledger.len(),
            !before@.retired.contains(serial as u64),
            serial <= u64::MAX,
            after.ledger[serial].wf(),
            forall|k: int|
                0 <= k < before.ledger.len() && k != serial ==> after.ledger[k] == before.ledger[k],
        ensures
            after.wf(),
            after@ == (RegistryView {
                approvals: before@.approvals.update(serial, approvals_view(after.ledger[serial])),
                ..before@
            }),
    {
        let a = after@;
        let b = before@;
        assert(a.approvals =~= b.approvals.update(serial, approvals_view(after.ledger[serial])));
        assert forall|k: int, account: Seq<char>|
            0 <= k < a.approvals.len() && #[trigger] a.approvals[k].granted.contains_key(
                account,
            ) implies 1 <= a.approvals[k].granted[account] < a.approvals[k].next_id by {
            if k != serial {
                assert(a.approvals[k] == b.approvals[k]);
                assert(b.approvals[k].granted.contains_key(account));
            } else {
                assert(a.approvals[k] == approvals_view(after.ledger[k]));
            }
        }
        assert forall|k: int| 0 <= k < a.approvals.len() implies (#[trigger] a.approvals[k]).next_id
            >= 1 by {
            if k != serial {
                assert(a.approvals[k] == b.approvals[k]);
            } else {
                assert(a.approvals[k] == approvals_view(after.ledger[k]));
            }
        }
        assert forall|j: int| 0 <= j < a.retired.len() implies a.approvals[(
        #[trigger] a.retired[j]) as int].granted == Map::<Seq<char>, u64>::empty() by {
            assert(b.retired.contains(b.retired[j]));
            assert(b.approvals[b.retired[j] as int].granted == Map::<Seq<char>, u64>::empty());
        }
        assert forall|k: int| 0 <= k < after.ledger.len() implies (#[trigger] after.ledger[k]).wf() by {
            if k != serial {
                assert(after.ledger[k] == before.ledger[k]);
            }
        }
    }

    /// Approves `account` for the token `token_id` on its owner's word, under
    /// the token's next approval id, and returns that id.  A refused approval
    /// changes nothing.
    pub fn approve(&mut self, caller: &String, token_id: &String, account: String) -> (approved:
        Result<u64, Error>)
        requires
            old(self).wf(),
            old(self)@.has_token(token_id@) ==> old(self)@.next_approval_id(token_id@) < u64::MAX,
        ensures
            final(self).wf(),
            approved is Ok <==> old(self)@.owner_refusal(caller@, token_id@) is None,
            approved matches Err(e) ==> old(self)@.owner_refusal(caller@, token_id@) == Some(e)
                && final(self)@ == old(self)@,
            approved matches Ok(approval_id) ==> {
                &&& approval_id == old(self)@.next_approval_id(token_id@)
                &&& final(self)@ == old(self)@.with_approvals(
                    token_id@,
                    (approval_id + 1) as u64,
                    old(self)@.granted(token_id@).insert(account@, approval_id),
                )
            },
    {
        let at = match self.check_owner(caller, token_id) {
            Ok(at) => at,
            Err(e) => {
                return Err(e);
            },
        };
        let ghost before = *self;
        let serial = self.records[at].serial;
        assert(self@.approvals[serial as int] == approvals_view(self.ledger[serial as int]));
        assert(!self@.retired.contains(self@.records[at as int].serial));
        let approval_id = self.ledger[serial as usize].approve(account);
        proof {
            Self::lemma_ledger_changed(before, *self, serial as int);
        }
        Ok(approval_id)
    }

    /// Takes the approval of `account` for the token `token_id` away on its
    /// owner's word.  Nothing happens if the account held none.
    pub fn revoke(&mut self, caller: &String, token_id: &String, account: &String) -> (revoked:
        Result<(), Error>)
        requires
            old(self).wf(),
        ensures
            final(self).wf(),
            revoked is Ok <==> old(self)@.owner_refusal(caller@, token_id@) is None,
            revoked matches Err(e) ==> old(self)@.owner_refusal(caller@, token_id@) == Some(e)
                && final(self)@ == old(self)@,
            revoked is Ok ==> final(self)@ == old(self)@.with_approvals(
                token_id@,
                old(self)@.next_approval_id(token_id@),
                old(self)@.granted(token_id@).remove(account@),
            ),
    {
        let at = match self.check_owner(caller, token_id) {
            Ok(at) => at,
            Err(e) => {
                return Err(e);
            },
        };
        let ghost before = *self;
        let serial = self.records[at].serial;
        assert(self@.approvals[serial as int] == approvals_view(self.ledger[serial as int]));
        assert(!self@.retired.contains(self@.records[at as int].serial));
        self.ledger[serial as usize].revoke(account);
        proof {
            Self::lemma_ledger_changed(before, *self, serial as int);
        }
        Ok(())
    }

    /// Takes every approval for the token `token_id` away on its owner's word.
    pub fn revoke_all(&mut self, caller: &String, token_id: &String) -> (revoked: Result<
        (),
        Error,
    >)
        requires
            old(self).wf(),
        ensures
            final(self).wf(),
            revoked is Ok <==> old(self)@.owner_refusal(caller@, token_id@) is None,
            revoked matches Err(e) ==> old(self)@.owner_refusal(caller@, token_id@) == Some(e)
                && final(self)@ == old(self)@,
            revoked is Ok ==> final(self)@ == old(self)@.with_approvals(
                token_id@,
                old(self)@.next_approval_id(token_id@),
                Map::empty(),
            ),
    {
        let at = match self.check_owner(caller, token_id) {
            Ok(at) => at,
            Err(e) => {
                return Err(e);
            },
        };
        let ghost before = *self;
        let serial = self.records[at].serial;
        assert(self@.approvals[serial as int] == approvals_view(self.ledger[serial as int]));
        assert(!self@.retired.contains(self@.records[at as int].serial));
        self.ledger[serial as usize].revoke_all();
        proof {
            Self::lemma_ledger_changed(before, *self, serial as int);
        }
        Ok(())
    }

    /// Tells whether `account` is approved for the token `token_id`, under
    /// `approval_id` if one is given.  Nobody is approved for a token that
    /// does not exist.
    pub fn is_approved(&self, token_id: &String, account: &String, approval_id: Option<u64>) -> (approved:
        bool)
        requires
            self.wf(),
        ensures
            approved == self@.is_approved(token_id@, account@, approval_id),
    {
        match self.find(token_id) {
            None => false,
            Some(at) => {
                let serial = self.records[at].serial;
                assert(self@.approvals[serial as int] == approvals_view(self.ledger[serial as int]));
                self.ledger[serial as usize].is_approved(account, approval_id)
            },
        }
    }

    /// The id that the next approval of the token `token_id` receives, if the
    /// token exists.
    pub fn next_approval_id(&self, token_id: &String) -> (next: Option<u64>)
        requires
            self.wf(),
        ensures
            next is Some <==> self@.has_token(token_id@),
            next matches Some(id) ==> id == self@.next_approval_id(token_id@),
    {
        match self.find(token_id) {
            None => None,
            Some(at) => {
                let serial = self.records[at].serial;
                assert(self@.approvals[serial as int] == approvals_view(self.ledger[serial as int]));
                Some(self.ledger[serial as usize].next())
            },
        }
    }

    /// Authorizes `agent` on the word of the registry's owner.
    pub fn add_agent(&mut self, caller: &String, agent: String) -> (done: Result<(), Error>)
        requires
            old(self).wf(),
        ensures
            final(self).wf(),
            done is Ok <==> caller@ == old(self)@.owner,
            done is Ok ==> final(self)@ == (RegistryView {
                agents: old(self)@.agents.insert(agent@),
                ..old(self)@
            }),
            done matches Err(e) ==> e == Error::Unauthorized && final(self)@ == old(self)@,
    {
        self.guard.add_agent(caller, agent)
    }

    /// Authorizes `agent` as part of the registry's own setup.
    pub(crate) fn enroll(&mut self, agent: String)
        requires
            old(self).wf(),
        ensures
            final(self).wf(),
            final(self)@ == (RegistryView {
                agents: old(self)@.agents.insert(agent@),
                ..old(self)@
            }),
    {
        self.guard.enroll(agent)
    }

    /// A page of the live tokens, in the order in which they are kept: from
    /// the position `from_index` on, and no more than `limit` of them.
    pub fn tokens(&self, from_index: u64, limit: Option<u64>) -> (page: Vec<Token>)
        requires
            self.wf(),
        ensures
            token_views(page@) == self@.presented(
                page_start(from_index, self@.records.len() as int),
                page_end(from_index, limit, self@.records.len() as int),
            ),
    {
        let len = self.records.len();
        assert(len <= MAX_SUPPLY);
        let start: usize = if from_index < len as u64 {
            from_index as usize
        } else {
            len
        };
        let end: usize = match limit {
            Some(most) => if most < (len - start) as u64 {
                start + most as usize
            } else {
                len
            },
            None => len,
        };
        let mut page: Vec<Token> = Vec::new();
        let mut i: usize = start;
        while i < end
            invariant
                self.wf(),
                start <= i <= end <= self@.records.len(),
                token_views(page@) == self@.presented(start as int, i as int),
            decreases end - i,
        {
            let token = self.present(i);
            let ghost shown = token_views(page@);
            page.push(token);
            assert(token_views(page@) =~= shown.push(token@));
            i = i + 1;
            assert(token_views(page@) =~= self@.presented(start as int, i as int));
        }
        assert(token_views(page@) =~= self@.presented(start as int, end as int));
        page
    }

    /// A page of the tokens that `account` owns, in the order in which they
    /// are kept: from the position `from_index` among them on, and no more
    /// than `limit` of them.
    pub fn tokens_for_owner(&self, account: &String, from_index: u64, limit: Option<u64>) -> (page:
        Vec<Token>)
        requires
            self.wf(),
        ensures
            ({
                let owned = self@.owned_tokens(account@, self@.records.len() as int);
                token_views(page@) == owned.subrange(
                    page_start(from_index, owned.len() as int),
                    page_end(from_index, limit, owned.len() as int),
                )
            }),
    {
        let mut page: Vec<Token> = Vec::new();
        let mut seen: u64 = 0;
        let mut i: usize = 0;
        while i < self.records.len()
            invariant
                self.wf(),
                i <= self.records.len(),
                self@.records.len() == self.records.len(),
                self.records.len() <= MAX_SUPPLY,
                seen <= i,
                seen == self@.owned_tokens(account@, i as int).len(),
                ({
                    let owned = self@.owned_tokens(account@, i as int);
                    token_views(page@) == owned.subrange(
                        page_start(from_index, owned.len() as int),
                        page_end(from_index, limit, owned.len() as int),
                    )
                }),
            decreases self.records.len() - i,
        {
            assert(self@.records[i as int] == record_view(self.records[i as int]));
            let ghost owned = self@.owned_tokens(account@, i as int);
            if self.records[i].owner_id == *account {
                let wanted = seen >= from_index && match limit {
                    Some(most) => seen - from_index < most,
                    None => true,
                };
                if wanted {
                    let token = self.present(i);
                    let ghost shown = token_views(page@);
                    page.push(token);
                    assert(token_views(page@) =~= shown.push(token@));
                }
                seen = seen + 1;
                let ghost more = self@.owned_tokens(account@, i + 1);
                assert(more == owned.push(self@.token_at(i as int)));
                assert(token_views(page@) =~= more.subrange(
                    page_start(from_index, more.len() as int),
                    page_end(from_index, limit, more.len() as int),
                ));
            }
            i = i + 1;
        }
        page
    }

    /// The state of the registry as plain values.
    pub fn snapshot(&self) -> (snapshot: RegistrySnapshot)
        requires
            self.wf(),
        ensures
            snapshot@ == self@,
            snapshot.sound(),
    {
        let mut records: Vec<Record> = Vec::new();
        let mut i: usize = 0;
        while i < self.records.len()
            invariant
                i <= self.records.len(),
                record_views(records@) == record_views(self.records@).subrange(0, i as int),
            decreases self.records.len() - i,
        {
            let ghost copied = record_views(records@);
            let record = Record {
                serial: self.records[i].serial,
                owner_id: self.records[i].owner_id.clone(),
                metadata: self.records[i].metadata.duplicate(),
            };
            let ghost view = record_view(record);
            records.push(record);
            assert(record_views(records@) =~= copied.push(view));
            assert(record_views(self.records@).subrange(0, i + 1) =~= record_views(
                self.records@,
            ).subrange(0, i as int).push(view));
            i = i + 1;
        }
        assert(record_views(self.records@).subrange(0, i as int) =~= record_views(self.records@));
        let mut ledger: Vec<LedgerEntry> = Vec::new();
        let mut k: usize = 0;
        while k < self.ledger.len()
            invariant
                self.wf(),
                k <= self.ledger.len(),
                ledger.len() == k,
                forall|j: int|
                    0 <= j < k ==> ledger_entry_view(#[trigger] ledger[j]) == approvals_view(
                        self.ledger[j],
                    ) && keys_distinct(grant_entries(ledger[j].grants@)),
            decreases self.ledger.len() - k,
        {
            let entry = LedgerEntry { next_id: self.ledger[k].next(), grants: self.ledger[k].list() };
            assert(self.ledger[k as int].wf());
            ledger.push(entry);
            k = k + 1;
        }
        let snapshot = RegistrySnapshot {
            owner_id: self.guard.owner_id().clone(),
            agents: self.guard.agent_list(),
            config: self.config,
            live_count: self.allocator.count(),
            retired: self.allocator.retired_list(),
            records,
            ledger,
        };
        assert(snapshot@.approvals =~= self@.approvals);
        assert(snapshot@ == self@);
        snapshot
    }

    fn rebuild_ledger(ledger: &Vec<LedgerEntry>) -> (rebuilt: Option<Vec<Approvals>>)
        ensures
            rebuilt is Some <==> ledger_fits(ledger@),
            rebuilt matches Some(approvals) ==> {
                &&& approvals.len() == ledger.len()
                &&& forall|k: int| 0 <= k < approvals.len() ==> (#[trigger] approvals[k]).wf()
                &&& ledger_views(approvals@) == ledger_entry_views(ledger@)
            },
    {
        let mut approvals: Vec<Approvals> = Vec::new();
        let mut k: usize = 0;
        while k < ledger.len()
            invariant
                k <= ledger.len(),
                approvals.len() == k,
                forall|j: int| 0 <= j < k ==> (#[trigger] approvals[j]).wf(),
                forall|j: int|
                    0 <= j < k ==> Approvals::fits(
                        (#[trigger] ledger[j]).next_id,
                        grant_entries(ledger[j].grants@),
                    ),
                ledger_views(approvals@) == ledger_entry_views(ledger@).subrange(0, k as int),
            decreases ledger.len() - k,
        {
            match Approvals::rebuild(ledger[k].next_id, &ledger[k].grants) {
                Some(rebuilt) => {
                    let ghost built = ledger_views(approvals@);
                    let ghost view = approvals_view(rebuilt);
                    approvals.push(rebuilt);
                    assert(ledger_views(approvals@) =~= built.push(view));
                    assert(ledger_entry_views(ledger@).subrange(0, k + 1) =~= ledger_entry_views(
                        ledger@,
                    ).subrange(0, k as int).push(view));
                },
                None => {
                    return None;
                },
            }
            k = k + 1;
        }
        assert(ledger_entry_views(ledger@).subrange(0, k as int) =~= ledger_entry_views(ledger@));
        Some(approvals)
    }

    fn check_records(
        records: &Vec<Record>,
        allocator: &IdentifierAllocator,
        issued: u64,
        single_ownership: bool,
    ) -> (fit: bool)
        ensures
            fit == records_fit(
                record_views(records@),
                allocator.retired(),
                issued as int,
                single_ownership,
            ),
    {
        let ghost views = record_views(records@);
        let mut i: usize = 0;
        while i < records.len()
            invariant
                i <= records.len(),
                views == record_views(records@),
                forall|a: int| 0 <= a < i ==> (#[trigger] views[a]).serial < issued,
                forall|a: int| 0 <= a < i ==> !allocator.retired().contains((#[trigger] views[a]).serial),
                forall|a: int, b: int|
                    0 <= a < b < i ==> (#[trigger] views[a]).serial != (#[trigger] views[b]).serial,
                single_ownership ==> forall|a: int, b: int|
                    0 <= a < b < i ==> (#[trigger] views[a]).owner != (#[trigger] views[b]).owner,
            decreases records.len() - i,
        {
            assert(views[i as int] == record_view(records[i as int]));
            if records[i].serial >= issued || allocator.is_retired(records[i].serial) {
                return false;
            }
            let mut j: usize = 0;
            while j < i
                invariant
                    j <= i < records.len(),
                    views == record_views(records@),
                    forall|a: int| 0 <= a < j ==> (#[trigger] views[a]).serial != views[i as int].serial,
                    single_ownership ==> forall|a: int|
                        0 <= a < j ==> (#[trigger] views[a]).owner != views[i as int].owner,
                decreases i - j,
            {
                assert(views[j as int] == record_view(records[j as int]));
                assert(views[i as int] == record_view(records[i as int]));
                if records[j].serial == records[i].serial {
                    return false;
                }
                if single_ownership && records[j].owner_id == records[i].owner_id {
                    return false;
                }
                j = j + 1;
            }
            i = i + 1;
        }
        true
    }

    fn build_index(records: &Vec<Record>) -> (index: OwnershipIndex)
        requires
            serials_distinct(record_views(records@)),
        ensures
            index.wf(),
            index.owned() == index_of_records(record_views(records@)),
    {
        let ghost views = record_views(records@);
        let mut index = OwnershipIndex::new();
        assert(index_of_records(views.subrange(0, 0)) =~= Map::empty());
        let mut i: usize = 0;
        while i < records.len()
            invariant
                i <= records.len(),
                views == record_views(records@),
                serials_distinct(views),
                index.wf(),
                index.owned() == index_of_records(views.subrange(0, i as int)),
            decreases records.len() - i,
        {
            proof {
                let done = views.subrange(0, i as int);
                assert(views[i as int] == record_view(records[i as int]));
                assert forall|a: int| 0 <= a < done.len() implies (#[trigger] done[a]).serial
                    != views[i as int].serial by {
                    assert(done[a] == views[a]);
                    assert(views[a].serial != views[i as int].serial);
                }
                lemma_index_push(done, views[i as int]);
                assert(views.subrange(0, i + 1) =~= done.push(views[i as int]));
            }
            index.add(&records[i].owner_id, records[i].serial);
            i = i + 1;
        }
        assert(views.subrange(0, i as int) =~= views);
        index
    }

    fn check_pool(pool: &Vec<u64>, ledger: &Vec<LedgerEntry>) -> (bare: bool)
        requires
            forall|j: int| 0 <= j < pool.len() ==> #[trigger] pool[j] < ledger.len(),
        ensures
            bare == pool_bare(pool@, ledger@),
    {
        let mut r: usize = 0;
        while r < pool.len()
            invariant
                r <= pool.len(),
                forall|j: int| 0 <= j < pool.len() ==> #[trigger] pool[j] < ledger.len(),
                forall|j: int|
                    0 <= j < r ==> ledger[(#[trigger] pool[j]) as int].grants@.len() == 0,
            decreases pool.len() - r,
        {
            if ledger[pool[r] as usize].grants.len() != 0 {
                return false;
            }
            r = r + 1;
        }
        true
    }

    /// Puts a registry back together from a snapshot, if the snapshot is sound.
    pub fn restore(snapshot: RegistrySnapshot) -> (registry: Option<TokenRegistry>)
        ensures
            registry is Some <==> snapshot.sound(),
            registry matches Some(r) ==> r.wf() && r@ == snapshot@,
    {
        proof {
            lemma_sound(snapshot);
        }
        if snapshot.live_count > MAX_SUPPLY || snapshot.retired.len() > MAX_SUPPLY as usize {
            return None;
        }
        let issued: u64 = snapshot.live_count + snapshot.retired.len() as u64;
        if snapshot.records.len() as u64 != snapshot.live_count || snapshot.ledger.len() as u64
            != issued {
            return None;
        }
        let approvals = match Self::rebuild_ledger(&snapshot.ledger) {
            Some(approvals) => approvals,
            None => {
                return None;
            },
        };
        let ghost state = snapshot@;
        let RegistrySnapshot { owner_id, agents, config, live_count, retired, records, ledger } =
            snapshot;
        let allocator = match IdentifierAllocator::restore(live_count, retired) {
            Some(allocator) => allocator,
            None => {
                return None;
            },
        };
        if !Self::check_records(&records, &allocator, issued, config.single_ownership) {
            return None;
        }
        let pool = allocator.retired_list();
        if !Self::check_pool(&pool, &ledger) {
            return None;
        }
        let index = Self::build_index(&records);
        let registry = TokenRegistry {
            guard: AuthorizationGuard::restore(owner_id, agents),
            allocator,
            records,
            index,
            ledger: approvals,
            config,
        };
        proof {
            assert(registry@ == state);
        }
        Some(registry)
    }
}

} // verus!
