use vstd::prelude::*;
use crate::contract::ContractView;
use crate::error::Error;
use crate::metadata::MetadataView;
use crate::ownership::{listed, lists, struck};
use crate::registry::{lemma_burned_wf, lemma_index_of_records, lemma_index_push, lemma_index_remove, lemma_index_update, lemma_minted_wf, lemma_next_serial_exists, serials_distinct, RegistryView};
use crate::sale::buy_refusal;
use crate::text::{id_text, lemma_id_text_injective, MAX_SUPPLY};

verus! {

/// One step in the life of a registry: a mint asked for by `caller` for
/// `owner`, or a burn of the token `id` asked for by `caller`.
pub enum Step {
    Mint { caller: Seq<char>, owner: Seq<char>, metadata: MetadataView },
    Burn { caller: Seq<char>, id: Seq<char> },
}

/// The state after one step: a refused step leaves the state as it was.
pub open spec fn after_step(state: RegistryView, step: Step) -> RegistryView {
    match step {
        Step::Mint { caller, owner, metadata } => if state.mint_refusal(caller, owner) is None {
            state.minted(owner, metadata)
        } else {
            state
        },
        Step::Burn { caller, id } => if state.burn_refusal(caller, id) is None {
            state.burned(id)
        } else {
            state
        },
    }
}

/// The state after a sequence of steps.
pub open spec fn after_steps(state: RegistryView, steps: Seq<Step>) -> RegistryView
    decreases steps.len(),
{
    if steps.len() == 0 {
        state
    } else {
        after_step(after_steps(state, steps.drop_last()), steps.last())
    }
}

/// Whatever mints and burns are asked for, in whatever order, a well-formed
/// registry stays well-formed: the counter of live tokens stays the number of
/// tokens in the registry, and never passes the supply.
pub proof fn law_steps_keep_well_formed(state: RegistryView, steps: Seq<Step>)
    requires
        state.wf(),
    ensures
        after_steps(state, steps).wf(),
        after_steps(state, steps).live_count == after_steps(state, steps).records.len(),
        after_steps(state, steps).live_count <= MAX_SUPPLY,
    decreases steps.len(),
{
    if steps.len() > 0 {
        law_steps_keep_well_formed(state, steps.drop_last());
        let before = after_steps(state, steps.drop_last());
        match steps.last() {
            Step::Mint { caller, owner, metadata } => {
                if before.mint_refusal(caller, owner) is None {
                    lemma_minted_wf(before, caller, owner, metadata);
                }
            },
            Step::Burn { caller, id } => {
                if before.burn_refusal(caller, id) is None {
                    lemma_burned_wf(before, id);
                }
            },
        }
    }
}

/// The identifiers of the live tokens, in the order in which the tokens are kept.
pub open spec fn live_ids(state: RegistryView) -> Seq<Seq<char>> {
    Seq::new(state.records.len(), |i: int| id_text(state.records[i].serial as nat))
}

/// In a well-formed registry the counter of live tokens is the number of
/// identifiers in the registry, and the identifiers in the registry are those
/// that the owners own between them.
pub proof fn law_count_and_ownership(state: RegistryView)
    requires
        state.wf(),
    ensures
        state.token_ids().finite(),
        state.live_count == state.token_ids().len(),
        forall|id: Seq<char>|
            state.token_ids().contains(id) <==> exists|owner: Seq<char>| #[trigger]
                state.owned_ids(owner).contains(id),
        forall|owner: Seq<char>, id: Seq<char>| #[trigger]
            state.owned_ids(owner).contains(id) ==> state.token(id) is Some && state.token(
                id,
            )->Some_0.owner_id == owner,
{
    let ids = live_ids(state);
    assert(ids.no_duplicates()) by {
        assert forall|i: int, j: int| 0 <= i < ids.len() && 0 <= j < ids.len() && i != j implies ids[i]
            != ids[j] by {
            if ids[i] == ids[j] {
                lemma_id_text_injective(
                    state.records[i].serial as nat,
                    state.records[j].serial as nat,
                );
                if i < j {
                    assert(state.records[i].serial != state.records[j].serial);
                } else {
                    assert(state.records[j].serial != state.records[i].serial);
                }
            }
        }
    }
    assert(ids.to_set() =~= state.token_ids()) by {
        assert forall|id: Seq<char>| ids.to_set().contains(id) <==> state.token_ids().contains(
            id,
        ) by {
            if ids.to_set().contains(id) {
                let i = choose|i: int| 0 <= i < ids.len() && ids[i] == id;
                assert(id == id_text(state.records[i].serial as nat));
            }
            if state.token_ids().contains(id) {
                let i = state.index_of(id);
                assert(ids[i] == id);
            }
        }
    }
    ids.unique_seq_to_set();
    vstd::seq_lib::seq_to_set_is_finite(ids);
    assert forall|id: Seq<char>|
        state.token_ids().contains(id) <==> exists|owner: Seq<char>| #[trigger]
            state.owned_ids(owner).contains(id) by {
        if state.token_ids().contains(id) {
            let i = state.index_of(id);
            assert(state.owned_ids(state.records[i].owner).contains(id));
        }
        if exists|owner: Seq<char>| #[trigger] state.owned_ids(owner).contains(id) {
            let owner = choose|owner: Seq<char>| #[trigger] state.owned_ids(owner).contains(id);
            let i = choose|i: int|
                0 <= i < state.records.len() && (#[trigger] state.records[i]).owner == owner && id
                    == id_text(state.records[i].serial as nat);
            assert(state.has_token(id));
        }
    }
    assert forall|owner: Seq<char>, id: Seq<char>| #[trigger]
        state.owned_ids(owner).contains(id) implies state.token(id) is Some && state.token(
        id,
    )->Some_0.owner_id == owner by {
        let i = choose|i: int|
            0 <= i < state.records.len() && (#[trigger] state.records[i]).owner == owner && id
                == id_text(state.records[i].serial as nat);
        state.lemma_index_of(id, i);
    }
}

/// The index of ownership lists a token for an owner exactly when the owner
/// owns it, and lists no owner that owns nothing.
pub proof fn law_index_agrees_with_records(state: RegistryView)
    requires
        state.wf(),
    ensures
        forall|owner: Seq<char>| #[trigger]
            state.ownership().contains_key(owner) <==> state.owns_any(owner),
        forall|owner: Seq<char>, id: Seq<char>|
            state.owned_ids(owner).contains(id) <==> exists|serial: u64|
                #![trigger lists(state.ownership(), owner, serial)]
                lists(state.ownership(), owner, serial) && id == id_text(serial as nat),
{
    lemma_index_of_records(state.records);
    assert forall|owner: Seq<char>, id: Seq<char>|
        state.owned_ids(owner).contains(id) <==> exists|serial: u64|
            #![trigger lists(state.ownership(), owner, serial)]
            lists(state.ownership(), owner, serial) && id == id_text(serial as nat) by {
        if state.owned_ids(owner).contains(id) {
            let i = choose|i: int|
                0 <= i < state.records.len() && (#[trigger] state.records[i]).owner == owner && id
                    == id_text(state.records[i].serial as nat);
            assert(lists(state.ownership(), owner, state.records[i].serial));
        }
        if exists|serial: u64|
            #![trigger lists(state.ownership(), owner, serial)]
            lists(state.ownership(), owner, serial) && id == id_text(serial as nat) {
            let serial = choose|serial: u64|
                #![trigger lists(state.ownership(), owner, serial)]
                lists(state.ownership(), owner, serial) && id == id_text(serial as nat);
            let i = choose|i: int|
                0 <= i < state.records.len() && (#[trigger] state.records[i]).owner == owner
                    && state.records[i].serial == serial;
            assert(state.owned_ids(owner).contains(id));
        }
    }
}

/// Every change of ownership changes the index with it: a mint lists the new
/// token for its owner, a burn strikes the token off for the owner it had,
/// and a token that goes to a new owner is struck off for the one and listed
/// for the other.
pub proof fn law_index_follows_changes(
    state: RegistryView,
    caller: Seq<char>,
    owner: Seq<char>,
    metadata: MetadataView,
    id: Seq<char>,
    granted: Map<Seq<char>, u64>,
)
    requires
        state.wf(),
    ensures
        state.mint_refusal(caller, owner) is None ==> state.minted(owner, metadata).ownership()
            == listed(state.ownership(), owner, state.next_serial()),
        state.has_token(id) ==> {
            let record = state.records[state.index_of(id)];
            &&& state.burned(id).ownership() == struck(
                state.ownership(),
                record.owner,
                record.serial,
            )
            &&& state.handed_over(id, owner, granted).ownership() == listed(
                struck(state.ownership(), record.owner, record.serial),
                owner,
                record.serial,
            )
        },
{
    assert(serials_distinct(state.records));
    if state.mint_refusal(caller, owner) is None {
        lemma_next_serial_exists(state);
        let serial = state.next_serial();
        assert forall|i: int| 0 <= i < state.records.len() implies (#[trigger] state.records[i]).serial
            != serial by {
            assert(state.records[i].serial < state.issued());
            assert(!state.retired.contains(state.records[i].serial));
        }
        lemma_index_push(state.records, state.minted(owner, metadata).records.last());
        assert(state.minted(owner, metadata).records =~= state.records.push(
            state.minted(owner, metadata).records.last(),
        ));
    }
    if state.has_token(id) {
        let at = state.index_of(id);
        lemma_index_remove(state.records, at);
        lemma_index_update(state.records, at, owner);
    }
}

/// In a well-formed registry no identifier is both live and retired.
pub proof fn law_live_and_retired_apart(state: RegistryView)
    requires
        state.wf(),
    ensures
        forall|id: Seq<char>| !(state.token_ids().contains(id) && state.retired_ids().contains(id)),
{
    assert forall|id: Seq<char>|
        !(state.token_ids().contains(id) && state.retired_ids().contains(id)) by {
        if state.token_ids().contains(id) && state.retired_ids().contains(id) {
            let i = state.index_of(id);
            let j = choose|j: int|
                0 <= j < state.retired.len() && id == id_text((#[trigger] state.retired[j]) as nat);
            lemma_id_text_injective(state.records[i].serial as nat, state.retired[j] as nat);
            assert(state.retired.contains(state.records[i].serial));
        }
    }
}

/// The identifier that a mint hands out is not that of a live token: it is
/// taken out of the pool of retired identifiers, or, when that pool is empty,
/// it is the one that follows those handed out so far.  After the mint it is
/// live, once, and no longer retired.
pub proof fn law_issued_identifier(
    state: RegistryView,
    caller: Seq<char>,
    owner: Seq<char>,
    metadata: MetadataView,
)
    requires
        state.wf(),
        state.mint_refusal(caller, owner) is None,
    ensures
        ({
            let id = state.minted_token(owner, metadata).token_id;
            let after = state.minted(owner, metadata);
            &&& !state.token_ids().contains(id)
            &&& state.retired.len() > 0 ==> state.retired_ids().contains(id)
            &&& state.retired.len() == 0 ==> id == id_text(state.live_count)
            &&& after.token_ids() == state.token_ids().insert(id)
            &&& !after.retired_ids().contains(id)
            &&& after.live_count == state.live_count + 1
        }),
{
    lemma_next_serial_exists(state);
    lemma_minted_wf(state, caller, owner, metadata);
    let serial = state.next_serial();
    let id = id_text(serial as nat);
    let after = state.minted(owner, metadata);
    if state.token_ids().contains(id) {
        let i = state.index_of(id);
        lemma_id_text_injective(state.records[i].serial as nat, serial as nat);
        assert(!state.retired.contains(state.records[i].serial));
    }
    if state.retired.len() > 0 {
        let at = choose|j: int| 0 <= j < state.retired.len() && state.retired[j] == serial;
        assert(id == id_text(state.retired[at] as nat));
    }
    assert(after.token_ids() =~= state.token_ids().insert(id)) by {
        assert forall|other: Seq<char>|
            after.token_ids().contains(other) <==> state.token_ids().insert(id).contains(
                other,
            ) by {
            if after.token_ids().contains(other) {
                let i = after.index_of(other);
                if i < state.records.len() {
                    assert(after.records[i] == state.records[i]);
                    assert(state.has_token(other));
                }
            }
            if state.token_ids().contains(other) {
                let i = state.index_of(other);
                assert(after.records[i] == state.records[i]);
                assert(after.has_token(other));
            }
            if other == id {
                assert(after.records[state.records.len() as int].serial == serial);
                assert(after.has_token(other));
            }
        }
    }
    law_live_and_retired_apart(after);
}

/// A token that is burned while no identifier is retired gives its identifier
/// to the next mint, and that mint brings the counter of live tokens back to
/// what it was before the burn.
pub proof fn law_burn_then_mint_reuses(
    state: RegistryView,
    id: Seq<char>,
    owner: Seq<char>,
    metadata: MetadataView,
)
    requires
        state.wf(),
        state.has_token(id),
        state.retired.len() == 0,
    ensures
        state.burned(id).minted_token(owner, metadata).token_id == id,
        state.burned(id).minted(owner, metadata).live_count == state.live_count,
        state.burned(id).live_count == state.live_count - 1,
{
    lemma_burned_wf(state, id);
    let burned = state.burned(id);
    let serial = state.records[state.index_of(id)].serial;
    assert(burned.retired =~= seq![serial]);
    assert(burned.retired[0] == serial);
    assert(burned.is_next_serial(serial));
    burned.lemma_next_serial(serial);
}

/// Where an account may own one token only, no account owns two: the tokens
/// that an account owns are one token at most.
pub proof fn law_single_ownership(state: RegistryView, account: Seq<char>)
    requires
        state.wf(),
        state.config.single_ownership,
    ensures
        forall|first: Seq<char>, second: Seq<char>|
            state.owned_ids(account).contains(first) && state.owned_ids(account).contains(second)
                ==> first == second,
{
    assert forall|first: Seq<char>, second: Seq<char>|
        state.owned_ids(account).contains(first) && state.owned_ids(account).contains(
            second,
        ) implies first == second by {
        let i = choose|i: int|
            0 <= i < state.records.len() && (#[trigger] state.records[i]).owner == account && first
                == id_text(state.records[i].serial as nat);
        let j = choose|j: int|
            0 <= j < state.records.len() && (#[trigger] state.records[j]).owner == account && second
                == id_text(state.records[j].serial as nat);
        if i < j {
            assert(state.records[i].owner != state.records[j].owner);
        } else if j < i {
            assert(state.records[j].owner != state.records[i].owner);
        }
    }
}

/// The id of an approval is higher than the id of every approval that the
/// token holds when it is given, and the token's next one is higher still.
pub proof fn law_approval_ids_go_up(state: RegistryView, id: Seq<char>, account: Seq<char>)
    requires
        state.wf(),
        state.has_token(id),
        state.next_approval_id(id) < u64::MAX,
    ensures
        ({
            let given = state.next_approval_id(id);
            let after = state.with_approvals(
                id,
                (given + 1) as u64,
                state.granted(id).insert(account, given),
            );
            &&& forall|other: Seq<char>| #[trigger]
                state.granted(id).contains_key(other) ==> state.granted(id)[other] < given
            &&& after.granted(id)[account] == given
            &&& after.next_approval_id(id) == given + 1
        }),
{
    let at = state.index_of(id);
    let serial = state.records[at].serial as int;
    assert(state.records[at].serial < state.issued());
    assert forall|other: Seq<char>| #[trigger] state.granted(id).contains_key(other) implies state.granted(
        id,
    )[other] < state.next_approval_id(id) by {
        assert(state.approvals[serial].granted.contains_key(other));
    }
    let given = state.next_approval_id(id);
    let after = state.with_approvals(id, (given + 1) as u64, state.granted(id).insert(account, given));
    assert(after.records == state.records);
    assert(after.index_of(id) == at);
}

/// A transfer leaves nobody approved for the token that went over.
pub proof fn law_transfer_clears_approvals(
    state: RegistryView,
    caller: Seq<char>,
    receiver: Seq<char>,
    id: Seq<char>,
    approval_id: Option<u64>,
    now: u64,
)
    requires
        state.wf(),
        state.transfer_refusal(caller, receiver, id, approval_id, now) is None,
    ensures
        forall|account: Seq<char>, under: Option<u64>|
            !(#[trigger] state.handed_over(id, receiver, Map::empty()).is_approved(
                id,
                account,
                under,
            )),
{
    let after = state.handed_over(id, receiver, Map::empty());
    let at = state.index_of(id);
    assert(after.records[at].serial == state.records[at].serial);
    assert forall|account: Seq<char>, under: Option<u64>|
        !(#[trigger] after.is_approved(id, account, under)) by {
        if after.has_token(id) {
            let i = after.index_of(id);
            lemma_id_text_injective(after.records[i].serial as nat, state.records[at].serial as nat);
            assert(after.records[i].serial == state.records[i].serial);
            assert(after.granted(id) == Map::<Seq<char>, u64>::empty());
        }
    }
}

/// Once a token changed hands, by whatever path, it cannot be bought on the
/// terms it was offered on before: there is no listing of it any more.
pub proof fn law_ownership_change_ends_sale(
    state: ContractView,
    registry: RegistryView,
    id: Seq<char>,
    buyer: Seq<char>,
    attached: u128,
    now: u64,
)
    ensures
        !state.with_registry(registry, id).listings.contains_key(id),
        buy_refusal(
            state.with_registry(registry, id).listings,
            state.with_registry(registry, id).registry,
            buyer,
            id,
            attached,
            now,
        ) == Some(Error::NotFound),
{
}

/// A registry that holds as many tokens as the supply allows refuses every
/// mint for want of room, and has room for one again as soon as a token of
/// it was burned.
pub proof fn law_capacity(state: RegistryView, caller: Seq<char>, owner: Seq<char>, id: Seq<char>)
    requires
        state.wf(),
        state.live_count == MAX_SUPPLY,
    ensures
        state.mint_refusal(caller, owner) == Some(Error::CapacityExceeded),
        state.has_token(id) ==> state.burned(id).mint_refusal(caller, owner) != Some(
            Error::CapacityExceeded,
        ),
        state.has_token(id) ==> state.burned(id).live_count == MAX_SUPPLY - 1,
{
}

} // verus!
