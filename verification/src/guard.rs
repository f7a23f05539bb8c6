use vstd::prelude::*;
use crate::error::Error;

verus! {

/// The names in a list of accounts.
pub open spec fn names(accounts: Seq<String>) -> Seq<Seq<char>> {
    accounts.map_values(|a: String| a@)
}

/// Decides who may act for the registry: its owner, fixed when the registry is
/// set up, and the agents that the owner has authorized since.  Agents are
/// only ever added.
pub struct AuthorizationGuard {
    owner: String,
    agents: Vec<String>,
}

impl AuthorizationGuard {
    /// The owner's name.
    pub closed spec fn owner(&self) -> Seq<char> {
        self.owner@
    }

    /// The names of the authorized agents.
    pub closed spec fn agents(&self) -> Set<Seq<char>> {
        names(self.agents@).to_set()
    }

    /// Whether `caller` is the owner or an authorized agent.
    pub open spec fn may_mint(&self, caller: Seq<char>) -> bool {
        caller == self.owner() || self.agents().contains(caller)
    }

    /// A guard for `owner`, with no agent.
    pub fn new(owner: String) -> (guard: AuthorizationGuard)
        ensures
            guard.owner() == owner@,
            guard.agents() == Set::<Seq<char>>::empty(),
    {
        let guard = AuthorizationGuard { owner, agents: Vec::new() };
        assert(names(guard.agents@) =~= Seq::empty());
        assert(guard.agents() =~= Set::empty());
        guard
    }

    /// Puts a guard back together from its owner and its agents.
    pub fn restore(owner: String, agents: Vec<String>) -> (guard: AuthorizationGuard)
        ensures
            guard.owner() == owner@,
            guard.agents() == names(agents@).to_set(),
    {
        AuthorizationGuard { owner, agents }
    }

    /// A copy of the list of authorized agents.
    pub fn agent_list(&self) -> (list: Vec<String>)
        ensures
            names(list@).to_set() == self.agents(),
    {
        let mut list: Vec<String> = Vec::new();
        let mut i: usize = 0;
        while i < self.agents.len()
            invariant
                i <= self.agents.len(),
                names(list@) == names(self.agents@).subrange(0, i as int),
            decreases self.agents.len() - i,
        {
            let ghost copied = names(list@);
            let agent = self.agents[i].clone();
            list.push(agent);
            assert(names(list@) =~= copied.push(agent@));
            i = i + 1;
            assert(names(list@) =~= names(self.agents@).subrange(0, i as int));
        }
        assert(names(self.agents@).subrange(0, i as int) =~= names(self.agents@));
        list
    }

    /// The owner.
    pub fn owner_id(&self) -> (owner: &String)
        ensures
            owner@ == self.owner(),
    {
        &self.owner
    }

    /// Tells whether `caller` is the owner.
    pub fn is_owner(&self, caller: &String) -> (yes: bool)
        ensures
            yes == (caller@ == self.owner()),
    {
        *caller == self.owner
    }

    /// Tells whether `caller` is an authorized agent.
    pub fn is_agent(&self, caller: &String) -> (yes: bool)
        ensures
            yes == self.agents().contains(caller@),
    {
        let mut i: usize = 0;
        while i < self.agents.len()
            invariant
                i <= self.agents.len(),
                names(self.agents@).len() == self.agents.len(),
                forall|j: int| 0 <= j < i ==> #[trigger] names(self.agents@)[j] != caller@,
            decreases self.agents.len() - i,
        {
            if self.agents[i] == *caller {
                assert(names(self.agents@)[i as int] == caller@);
                return true;
            }
            i = i + 1;
        }
        false
    }

    /// Tells whether `caller` may mint: the owner may, and so may every agent.
    pub fn can_mint(&self, caller: &String) -> (yes: bool)
        ensures
            yes == self.may_mint(caller@),
    {
        self.is_owner(caller) || self.is_agent(caller)
    }

    /// Authorizes `agent`, whoever asks.  The owner-gated entry is `add_agent`.
    pub(crate) fn enroll(&mut self, agent: String)
        ensures
            final(self).owner() == old(self).owner(),
            final(self).agents() == old(self).agents().insert(agent@),
    {
        if !self.is_agent(&agent) {
            let ghost before = names(self.agents@);
            let ghost name = agent@;
            self.agents.push(agent);
            assert(names(self.agents@) =~= before.push(name));
            proof {
                before.lemma_push_to_set_commute(name);
            }
        } else {
            assert(self.agents() =~= self.agents().insert(agent@));
        }
    }

    /// Authorizes `agent` on the owner's word: any other caller is refused.
    pub fn add_agent(&mut self, caller: &String, agent: String) -> (done: Result<(), Error>)
        ensures
            final(self).owner() == old(self).owner(),
            done is Ok <==> caller@ == old(self).owner(),
            done is Ok ==> final(self).agents() == old(self).agents().insert(agent@),
            done matches Err(e) ==> e == Error::Unauthorized && final(self).agents() == old(
                self,
            ).agents(),
    {
        if !self.is_owner(caller) {
            return Err(Error::Unauthorized);
        }
        self.enroll(agent);
        Ok(())
    }
}

} // verus!
