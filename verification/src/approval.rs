use vstd::prelude::*;
use crate::assoc::{has_key, keys_distinct, lemma_to_map_keys, lemma_to_map_push, lemma_to_map_remove, lemma_to_map_update, lemma_to_map_value, to_map};

verus! {

/// One approval: the account that may transfer the token, and the id under
/// which it was approved.
#[derive(Clone, Debug, PartialEq, Eq)]
pub struct Grant {
    pub account_id: String,
    pub approval_id: u64,
}

/// The account and approval id of a grant.
pub open spec fn grant_entry(grant: Grant) -> (Seq<char>, u64) {
    (grant.account_id@, grant.approval_id)
}

/// The accounts and approval ids of a list of grants, in order.
pub open spec fn grant_entries(grants: Seq<Grant>) -> Seq<(Seq<char>, u64)> {
    grants.map_values(|g: Grant| grant_entry(g))
}

/// The approvals that a list of grants puts back on a token whose next
/// approval id is `next_id`: each grant whose id that token could have given
/// out, a later grant for an account replacing an earlier one.
pub open spec fn restored(grants: Seq<(Seq<char>, u64)>, next_id: u64) -> Map<Seq<char>, u64>
    decreases grants.len(),
{
    if grants.len() == 0 {
        Map::empty()
    } else {
        let earlier = restored(grants.drop_last(), next_id);
        let last = grants.last();
        if 1 <= last.1 < next_id {
            earlier.insert(last.0, last.1)
        } else {
            earlier
        }
    }
}

/// The approvals of one token: which accounts may transfer it, each under an
/// approval id, and the id that the next approval receives.  Approval ids of a
/// token only ever go up, so none is given out twice.
pub struct Approvals {
    next_id: u64,
    grants: Vec<Grant>,
}

impl Approvals {
    /// The id that the next approval receives.
    pub closed spec fn next_id(&self) -> u64 {
        self.next_id
    }

    /// The accounts and approval ids on record, in the order in which they are kept.
    pub closed spec fn entries(&self) -> Seq<(Seq<char>, u64)> {
        grant_entries(self.grants@)
    }

    /// The approved accounts, each with its approval id.
    pub open spec fn granted(&self) -> Map<Seq<char>, u64> {
        to_map(self.entries())
    }

    /// No account is on record twice, and every approval id on record was
    /// given out before the next one.
    pub open spec fn wf(&self) -> bool {
        &&& keys_distinct(self.entries())
        &&& self.next_id() >= 1
        &&& forall|account: Seq<char>| #[trigger]
            self.granted().contains_key(account) ==> 1 <= self.granted()[account]
                < self.next_id()
    }

    /// Whether `account` is approved, under `approval_id` if one is given.
    pub open spec fn approves(&self, account: Seq<char>, approval_id: Option<u64>) -> bool {
        &&& self.granted().contains_key(account)
        &&& (approval_id matches Some(id) ==> self.granted()[account] == id)
    }

    /// Whether a next approval id and a list of grants fit together as the
    /// approvals of a token.
    pub open spec fn fits(next_id: u64, grants: Seq<(Seq<char>, u64)>) -> bool {
        &&& next_id >= 1
        &&& keys_distinct(grants)
        &&& forall|i: int| 0 <= i < grants.len() ==> 1 <= (#[trigger] grants[i]).1 < next_id
    }

    /// Puts the approvals of a token back together from the id of its next
    /// approval and its grants, if the two fit together.
    pub fn rebuild(next_id: u64, grants: &Vec<Grant>) -> (approvals: Option<Approvals>)
        ensures
            approvals is Some <==> Self::fits(next_id, grant_entries(grants@)),
            approvals matches Some(a) ==> a.wf() && a.next_id() == next_id && a.entries()
                == grant_entries(grants@),
    {
        if next_id < 1 {
            return None;
        }
        let ghost all = grant_entries(grants@);
        let mut built = Approvals { next_id, grants: Vec::new() };
        assert(built.entries() =~= all.subrange(0, 0));
        let mut i: usize = 0;
        while i < grants.len()
            invariant
                i <= grants.len(),
                all == grant_entries(grants@),
                built.next_id == next_id,
                built.entries() == all.subrange(0, i as int),
                keys_distinct(built.entries()),
                forall|a: int| 0 <= a < i ==> 1 <= (#[trigger] all[a]).1 < next_id,
            decreases grants.len() - i,
        {
            let approval_id = grants[i].approval_id;
            if approval_id < 1 || approval_id >= next_id {
                assert(all[i as int].1 == approval_id);
                return None;
            }
            match built.find(&grants[i].account_id) {
                Some(at) => {
                    assert(all[at as int].0 == all[i as int].0);
                    return None;
                },
                None => {},
            }
            let ghost before = built.entries();
            built.grants.push(
                Grant { account_id: grants[i].account_id.clone(), approval_id },
            );
            assert(built.entries() =~= before.push(all[i as int]));
            assert(all.subrange(0, i + 1) =~= before.push(all[i as int]));
            assert(keys_distinct(built.entries())) by {
                assert forall|a: int, b: int| 0 <= a < b < built.entries().len() implies built.entries()[a].0
                    != built.entries()[b].0 by {
                    if b == before.len() {
                        assert(before[a].0 != all[i as int].0);
                    } else {
                        assert(before[a].0 != before[b].0);
                    }
                }
            }
            i = i + 1;
        }
        assert(all.subrange(0, i as int) =~= all);
        proof {
            lemma_to_map_keys(all);
            assert forall|account: Seq<char>| #[trigger]
                built.granted().contains_key(account) implies 1 <= built.granted()[account]
                < next_id by {
                let at = choose|at: int| 0 <= at < all.len() && (#[trigger] all[at]).0 == account;
                lemma_to_map_value(all, at);
            }
        }
        Some(built)
    }

    /// The approvals of a token that was never approved for anyone.
    pub fn new() -> (approvals: Approvals)
        ensures
            approvals.wf(),
            approvals.next_id() == 1,
            approvals.granted() == Map::<Seq<char>, u64>::empty(),
    {
        let approvals = Approvals { next_id: 1, grants: Vec::new() };
        assert(approvals.entries() =~= Seq::empty());
        approvals
    }

    /// The id that the next approval receives.
    pub fn next(&self) -> (next_id: u64)
        ensures
            next_id == self.next_id(),
    {
        self.next_id
    }

    fn find(&self, account: &String) -> (at: Option<usize>)
        ensures
            at matches Some(i) ==> i < self.entries().len() && self.entries()[i as int].0
                == account@,
            at is None ==> !has_key(self.entries(), account@),
    {
        let mut i: usize = 0;
        while i < self.grants.len()
            invariant
                i <= self.grants.len(),
                self.entries().len() == self.grants.len(),
                forall|j: int| 0 <= j < i ==> (#[trigger] self.entries()[j]).0 != account@,
            decreases self.grants.len() - i,
        {
            if self.grants[i].account_id == *account {
                return Some(i);
            }
            i = i + 1;
        }
        None
    }

    fn put(&mut self, account: String, approval_id: u64)
        requires
            keys_distinct(old(self).entries()),
        ensures
            keys_distinct(final(self).entries()),
            final(self).next_id() == old(self).next_id(),
            final(self).granted() == old(self).granted().insert(account@, approval_id),
    {
        let ghost before = self.entries();
        match self.find(&account) {
            Some(at) => {
                proof {
                    lemma_to_map_update(before, at as int, approval_id);
                }
                self.grants.set(at, Grant { account_id: account, approval_id });
                assert(self.entries() =~= before.update(at as int, (before[at as int].0, approval_id)));
            },
            None => {
                proof {
                    lemma_to_map_push(before, (account@, approval_id));
                }
                self.grants.push(Grant { account_id: account, approval_id });
                assert(self.entries() =~= before.push((account@, approval_id)));
                assert(keys_distinct(self.entries())) by {
                    assert forall|i: int, j: int| 0 <= i < j < self.entries().len() implies self.entries()[i].0
                        != self.entries()[j].0 by {
                        if j == before.len() {
                            assert(before[i].0 != account@);
                        } else {
                            assert(before[i].0 != before[j].0);
                        }
                    }
                }
            },
        }
    }

    /// Approves `account` under the next approval id, in place of any approval
    /// that the account held, and returns that id.
    pub fn approve(&mut self, account: String) -> (approval_id: u64)
        requires
            old(self).wf(),
            old(self).next_id() < u64::MAX,
        ensures
            final(self).wf(),
            approval_id == old(self).next_id(),
            final(self).next_id() == old(self).next_id() + 1,
            final(self).granted() == old(self).granted().insert(account@, approval_id),
    {
        let approval_id = self.next_id;
        self.put(account, approval_id);
        self.next_id = approval_id + 1;
        approval_id
    }

    /// Takes the approval of `account` away.  Nothing happens if it held none.
    pub fn revoke(&mut self, account: &String)
        requires
            old(self).wf(),
        ensures
            final(self).wf(),
            final(self).next_id() == old(self).next_id(),
            final(self).granted() == old(self).granted().remove(account@),
    {
        let ghost before = self.entries();
        match self.find(account) {
            Some(at) => {
                proof {
                    lemma_to_map_remove(before, at as int);
                }
                self.grants.remove(at);
                assert(self.entries() =~= before.remove(at as int));
                assert(self.granted() == old(self).granted().remove(account@));
            },
            None => {
                proof {
                    lemma_to_map_keys(before);
                    assert(self.granted() =~= self.granted().remove(account@));
                }
            },
        }
        assert forall|a: Seq<char>| #[trigger] self.granted().contains_key(a) implies 1
            <= self.granted()[a] < self.next_id() by {
            assert(old(self).granted().contains_key(a));
        }
    }

    /// Takes every approval away.
    pub fn revoke_all(&mut self)
        requires
            old(self).wf(),
        ensures
            final(self).wf(),
            final(self).next_id() == old(self).next_id(),
            final(self).granted() == Map::<Seq<char>, u64>::empty(),
    {
        self.grants = Vec::new();
        assert(self.entries() =~= Seq::empty());
    }

    /// The approval id under which `account` is approved, if it is.
    pub fn approval_of(&self, account: &String) -> (approval_id: Option<u64>)
        requires
            self.wf(),
        ensures
            approval_id is Some <==> self.granted().contains_key(account@),
            approval_id matches Some(id) ==> self.granted()[account@] == id,
    {
        proof {
            lemma_to_map_keys(self.entries());
        }
        match self.find(account) {
            Some(at) => {
                proof {
                    lemma_to_map_value(self.entries(), at as int);
                }
                Some(self.grants[at].approval_id)
            },
            None => None,
        }
    }

    /// Tells whether `account` is approved, under `approval_id` if one is given.
    pub fn is_approved(&self, account: &String, approval_id: Option<u64>) -> (approved: bool)
        requires
            self.wf(),
        ensures
            approved == self.approves(account@, approval_id),
    {
        match self.approval_of(account) {
            Some(actual) => match approval_id {
                Some(given) => given == actual,
                None => true,
            },
            None => false,
        }
    }

    /// A copy of the approvals on record.
    pub fn list(&self) -> (grants: Vec<Grant>)
        ensures
            grant_entries(grants@) == self.entries(),
    {
        let mut grants: Vec<Grant> = Vec::new();
        let mut i: usize = 0;
        while i < self.grants.len()
            invariant
                i <= self.grants.len(),
                grant_entries(grants@) == grant_entries(self.grants@).subrange(0, i as int),
            decreases self.grants.len() - i,
        {
            let grant = Grant {
                account_id: self.grants[i].account_id.clone(),
                approval_id: self.grants[i].approval_id,
            };
            let ghost copied = grant_entries(grants@);
            let ghost entry = grant_entry(grant);
            grants.push(grant);
            assert(grant_entries(grants@) =~= copied.push(entry));
            assert(grant_entries(self.grants@).subrange(0, i + 1) =~= grant_entries(
                self.grants@,
            ).subrange(0, i as int).push(entry));
            i = i + 1;
        }
        assert(grant_entries(self.grants@).subrange(0, i as int) =~= grant_entries(self.grants@));
        grants
    }

    /// Puts back the approvals in `grants` in place of those on record.  A
    /// grant whose id this token could not have given out is left out.
    pub fn restore(&mut self, grants: &Vec<Grant>)
        requires
            old(self).wf(),
        ensures
            final(self).wf(),
            final(self).next_id() == old(self).next_id(),
            final(self).granted() == restored(grant_entries(grants@), old(self).next_id()),
    {
        self.revoke_all();
        let ghost all = grant_entries(grants@);
        let mut i: usize = 0;
        while i < grants.len()
            invariant
                i <= grants.len(),
                all == grant_entries(grants@),
                self.wf(),
                self.next_id() == old(self).next_id(),
                self.granted() == restored(all.subrange(0, i as int), self.next_id()),
            decreases grants.len() - i,
        {
            let approval_id = grants[i].approval_id;
            assert(all.subrange(0, i + 1).drop_last() =~= all.subrange(0, i as int));
            if 1 <= approval_id && approval_id < self.next_id {
                self.put(grants[i].account_id.clone(), approval_id);
            }
            i = i + 1;
        }
        assert(all.subrange(0, i as int) =~= all);
    }
}

} // verus!
