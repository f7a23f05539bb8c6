use vstd::prelude::*;
use crate::assoc::{has_key, keys_distinct, lemma_to_map_keys, lemma_to_map_push, lemma_to_map_remove, lemma_to_map_update, lemma_to_map_value, to_map};

verus! {

struct Holding {
    owner_id: String,
    serials: Vec<u64>,
}

spec fn holding_entry(holding: Holding) -> (Seq<char>, Set<u64>) {
    (holding.owner_id@, holding.serials@.to_set())
}

spec fn holding_entries(holdings: Seq<Holding>) -> Seq<(Seq<char>, Set<u64>)> {
    holdings.map_values(|h: Holding| holding_entry(h))
}

/// What `owner` holds according to an index: the serial numbers listed for
/// the owner, and none for an owner that the index does not list.
pub open spec fn held_by(index: Map<Seq<char>, Set<u64>>, owner: Seq<char>) -> Set<u64> {
    if index.contains_key(owner) {
        index[owner]
    } else {
        Set::empty()
    }
}

/// An index after `serial` was listed for `owner`.
pub open spec fn listed(
    index: Map<Seq<char>, Set<u64>>,
    owner: Seq<char>,
    serial: u64,
) -> Map<Seq<char>, Set<u64>> {
    index.insert(owner, held_by(index, owner).insert(serial))
}

/// An index after `serial` was struck off for `owner`: an owner left with
/// nothing is no longer listed.
pub open spec fn struck(
    index: Map<Seq<char>, Set<u64>>,
    owner: Seq<char>,
    serial: u64,
) -> Map<Seq<char>, Set<u64>> {
    let rest = held_by(index, owner).remove(serial);
    if rest == Set::<u64>::empty() {
        index.remove(owner)
    } else {
        index.insert(owner, rest)
    }
}

/// Whether an index lists `serial` for `owner`.
pub open spec fn lists(index: Map<Seq<char>, Set<u64>>, owner: Seq<char>, serial: u64) -> bool {
    index.contains_key(owner) && index[owner].contains(serial)
}

/// Whether every owner that an index lists holds something.
pub open spec fn no_idle_owner(index: Map<Seq<char>, Set<u64>>) -> bool {
    forall|owner: Seq<char>| #[trigger]
        index.contains_key(owner) ==> exists|serial: u64| index[owner].contains(serial)
}

/// Two indexes that list the same tokens for the same owners, and no owner
/// with nothing, are one index.
pub proof fn lemma_same_index(first: Map<Seq<char>, Set<u64>>, second: Map<Seq<char>, Set<u64>>)
    requires
        no_idle_owner(first),
        no_idle_owner(second),
        forall|owner: Seq<char>, serial: u64|
            lists(first, owner, serial) <==> lists(second, owner, serial),
    ensures
        first == second,
{
    assert forall|owner: Seq<char>| first.contains_key(owner) <==> second.contains_key(owner) by {
        if first.contains_key(owner) {
            let serial = choose|serial: u64| first[owner].contains(serial);
            assert(lists(first, owner, serial));
            assert(lists(second, owner, serial));
        }
        if second.contains_key(owner) {
            let serial = choose|serial: u64| second[owner].contains(serial);
            assert(lists(second, owner, serial));
            assert(lists(first, owner, serial));
        }
    }
    assert forall|owner: Seq<char>| first.contains_key(owner) implies first[owner]
        =~= second[owner] by {
        assert forall|serial: u64| first[owner].contains(serial) <==> second[owner].contains(
            serial,
        ) by {
            assert(lists(first, owner, serial) <==> lists(second, owner, serial));
        }
    }
    assert(first =~= second);
}

/// Listing a token adds that token for that owner and nothing else.
pub proof fn lemma_listed(index: Map<Seq<char>, Set<u64>>, owner: Seq<char>, serial: u64)
    requires
        no_idle_owner(index),
    ensures
        no_idle_owner(listed(index, owner, serial)),
        forall|o: Seq<char>, s: u64|
            lists(listed(index, owner, serial), o, s) <==> lists(index, o, s) || (o == owner && s
                == serial),
{
    let after = listed(index, owner, serial);
    assert forall|o: Seq<char>| #[trigger] after.contains_key(o) implies exists|s: u64|
        after[o].contains(s) by {
        if o == owner {
            assert(after[o].contains(serial));
        } else {
            assert(index.contains_key(o));
            let s = choose|s: u64| index[o].contains(s);
            assert(after[o].contains(s));
        }
    }
}

/// Striking a token off removes that token for that owner and nothing else.
pub proof fn lemma_struck(index: Map<Seq<char>, Set<u64>>, owner: Seq<char>, serial: u64)
    requires
        no_idle_owner(index),
    ensures
        no_idle_owner(struck(index, owner, serial)),
        forall|o: Seq<char>, s: u64|
            lists(struck(index, owner, serial), o, s) <==> lists(index, o, s) && !(o == owner && s
                == serial),
{
    let after = struck(index, owner, serial);
    let rest = held_by(index, owner).remove(serial);
    assert forall|o: Seq<char>| #[trigger] after.contains_key(o) implies exists|s: u64|
        after[o].contains(s) by {
        if o == owner {
            assert(rest != Set::<u64>::empty());
            assert(after[o] == rest);
            if forall|s: u64| !rest.contains(s) {
                assert(rest =~= Set::<u64>::empty());
            }
            let s = choose|s: u64| rest.contains(s);
            assert(after[o].contains(s));
        } else {
            assert(index.contains_key(o));
            let s = choose|s: u64| index[o].contains(s);
            assert(after[o].contains(s));
        }
    }
    assert forall|o: Seq<char>, s: u64|
        lists(after, o, s) <==> lists(index, o, s) && !(o == owner && s == serial) by {
        if rest == Set::<u64>::empty() {
            if o == owner && lists(index, o, s) && s != serial {
                assert(rest.contains(s));
            }
        }
    }
}

/// Which tokens each owner holds, by serial number.  An owner is listed as
/// long as it holds a token.
pub struct OwnershipIndex {
    holdings: Vec<Holding>,
}

impl OwnershipIndex {
    closed spec fn entries(&self) -> Seq<(Seq<char>, Set<u64>)> {
        holding_entries(self.holdings@)
    }

    /// The serial numbers of the tokens of each owner that holds any.
    pub closed spec fn owned(&self) -> Map<Seq<char>, Set<u64>> {
        to_map(self.entries())
    }

    /// No owner is listed twice, none is listed with nothing, and no token is
    /// listed twice for its owner.
    pub closed spec fn wf(&self) -> bool {
        &&& keys_distinct(self.entries())
        &&& forall|i: int|
            0 <= i < self.holdings.len() ==> (#[trigger] self.holdings[i]).serials@.len() > 0
                && self.holdings[i].serials@.no_duplicates()
    }

    /// In a well-formed index every listed owner holds something.
    pub proof fn lemma_no_idle_owner(&self)
        requires
            self.wf(),
        ensures
            no_idle_owner(self.owned()),
    {
        lemma_to_map_keys(self.entries());
        assert forall|owner: Seq<char>| #[trigger] self.owned().contains_key(owner) implies exists|
            serial: u64,
        | self.owned()[owner].contains(serial) by {
            let at = choose|at: int|
                0 <= at < self.entries().len() && (#[trigger] self.entries()[at]).0 == owner;
            lemma_to_map_value(self.entries(), at);
            let serials = self.holdings[at].serials@;
            assert(serials.to_set().contains(serials[0]));
        }
    }

    /// An index that lists nobody.
    pub fn new() -> (index: OwnershipIndex)
        ensures
            index.wf(),
            index.owned() == Map::<Seq<char>, Set<u64>>::empty(),
    {
        let index = OwnershipIndex { holdings: Vec::new() };
        assert(index.entries() =~= Seq::empty());
        index
    }

    fn find(&self, owner: &String) -> (at: Option<usize>)
        requires
            self.wf(),
        ensures
            at is Some <==> self.owned().contains_key(owner@),
            at matches Some(i) ==> {
                &&& i < self.holdings.len()
                &&& self.entries().len() == self.holdings.len()
                &&& self.entries()[i as int] == holding_entry(self.holdings[i as int])
                &&& self.holdings[i as int].owner_id@ == owner@
                &&& self.owned()[owner@] == self.holdings[i as int].serials@.to_set()
            },
    {
        proof {
            lemma_to_map_keys(self.entries());
        }
        let mut i: usize = 0;
        while i < self.holdings.len()
            invariant
                self.wf(),
                i <= self.holdings.len(),
                self.entries().len() == self.holdings.len(),
                forall|j: int| 0 <= j < i ==> (#[trigger] self.entries()[j]).0 != owner@,
            decreases self.holdings.len() - i,
        {
            if self.holdings[i].owner_id == *owner {
                proof {
                    lemma_to_map_value(self.entries(), i as int);
                }
                return Some(i);
            }
            i = i + 1;
        }
        None
    }

    /// Tells whether `owner` holds a token.
    pub fn owns(&self, owner: &String) -> (yes: bool)
        requires
            self.wf(),
        ensures
            yes == self.owned().contains_key(owner@),
    {
        self.find(owner).is_some()
    }

    /// Lists `serial` for `owner`, who did not hold it.
    pub fn add(&mut self, owner: &String, serial: u64)
        requires
            old(self).wf(),
            !held_by(old(self).owned(), owner@).contains(serial),
        ensures
            final(self).wf(),
            final(self).owned() == listed(old(self).owned(), owner@, serial),
    {
        let ghost before = self.entries();
        let ghost kept = self.holdings@;
        match self.find(owner) {
            Some(at) => {
                let ghost had = self.holdings[at as int].serials@;
                self.holdings[at].serials.push(serial);
                proof {
                    had.lemma_push_to_set_commute(serial);
                    let value = had.to_set().insert(serial);
                    lemma_to_map_update(before, at as int, value);
                    assert(self.entries() =~= before.update(at as int, (before[at as int].0, value)));
                    assert(self.holdings[at as int].serials@.no_duplicates()) by {
                        let now = self.holdings[at as int].serials@;
                        assert forall|i: int, j: int|
                            0 <= i < now.len() && 0 <= j < now.len() && i != j implies now[i]
                            != now[j] by {
                            if i < had.len() {
                                assert(had.to_set().contains(had[i]));
                            }
                            if j < had.len() {
                                assert(had.to_set().contains(had[j]));
                            }
                        }
                    }
                    assert forall|i: int| 0 <= i < self.holdings.len() implies (
                    #[trigger] self.holdings[i]).serials@.len() > 0
                        && self.holdings[i].serials@.no_duplicates() by {
                        if i != at {
                            assert(self.holdings[i] == kept[i]);
                        }
                    }
                }
            },
            None => {
                let mut serials: Vec<u64> = Vec::new();
                serials.push(serial);
                proof {
                    let value = Set::<u64>::empty().insert(serial);
                    assert(serials@ =~= Seq::<u64>::empty().push(serial));
                    Seq::<u64>::empty().lemma_push_to_set_commute(serial);
                    assert(Seq::<u64>::empty().to_set() =~= Set::<u64>::empty());
                    assert(serials@.to_set() =~= value);
                    lemma_to_map_push(before, (owner@, value));
                    lemma_to_map_keys(before);
                }
                self.holdings.push(Holding { owner_id: owner.clone(), serials });
                proof {
                    assert(self.entries() =~= before.push(
                        (owner@, Set::<u64>::empty().insert(serial)),
                    ));
                    assert(keys_distinct(self.entries())) by {
                        assert forall|i: int, j: int|
                            0 <= i < j < self.entries().len() implies self.entries()[i].0
                            != self.entries()[j].0 by {
                            if j == before.len() {
                                assert(has_key(before, before[i].0));
                            } else {
                                assert(before[i].0 != before[j].0);
                            }
                        }
                    }
                    assert forall|i: int| 0 <= i < self.holdings.len() implies (
                    #[trigger] self.holdings[i]).serials@.len() > 0
                        && self.holdings[i].serials@.no_duplicates() by {
                        if i < kept.len() {
                            assert(self.holdings[i] == kept[i]);
                        }
                    }
                }
            },
        }
    }

    /// Strikes `serial` off for `owner`, who held it.
    pub fn remove(&mut self, owner: &String, serial: u64)
        requires
            old(self).wf(),
            held_by(old(self).owned(), owner@).contains(serial),
        ensures
            final(self).wf(),
            final(self).owned() == struck(old(self).owned(), owner@, serial),
    {
        let ghost before = self.entries();
        let ghost kept = self.holdings@;
        let at = self.find(owner).unwrap();
        let ghost had = self.holdings[at as int].serials@;
        assert(had.to_set().contains(serial));
        assert(had.contains(serial));
        let ghost found = had.index_of(serial);
        let count = self.holdings[at].serials.len();
        let mut i: usize = 0;
        while self.holdings[at].serials[i] != serial
            invariant
                self.holdings@ == kept,
                at < kept.len(),
                kept[at as int].serials@ == had,
                0 <= i <= found < had.len() == count,
                had[found] == serial,
            decreases found - i,
        {
            i = i + 1;
        }
        assert(had.no_duplicates());
        assert(i == found);
        let ghost rest = had.remove(i as int);
        proof {
            assert(rest.to_set() =~= had.to_set().remove(serial)) by {
                assert forall|x: u64| rest.to_set().contains(x) <==> had.to_set().remove(
                    serial,
                ).contains(x) by {
                    if rest.to_set().contains(x) {
                        let j = choose|j: int| 0 <= j < rest.len() && rest[j] == x;
                        let k = if j < i { j } else { j + 1 };
                        assert(had[k] == x);
                        assert(k != i);
                    }
                    if had.to_set().contains(x) && x != serial {
                        let k = choose|k: int| 0 <= k < had.len() && had[k] == x;
                        let j = if k < i { k } else { k - 1 };
                        assert(rest[j] == x);
                    }
                }
            }
            assert(rest.no_duplicates()) by {
                assert forall|a: int, b: int|
                    0 <= a < rest.len() && 0 <= b < rest.len() && a != b implies rest[a]
                    != rest[b] by {
                    let x = if a < i { a } else { a + 1 };
                    let y = if b < i { b } else { b + 1 };
                    assert(had[x] != had[y]);
                }
            }
        }
        if count == 1 {
            proof {
                assert(rest.len() == 0);
                assert(rest.to_set() =~= Set::<u64>::empty());
                lemma_to_map_remove(before, at as int);
            }
            self.holdings.remove(at);
            proof {
                assert(self.entries() =~= before.remove(at as int));
                assert forall|k: int| 0 <= k < self.holdings.len() implies (
                #[trigger] self.holdings[k]).serials@.len() > 0
                    && self.holdings[k].serials@.no_duplicates() by {
                    let was = if k < at { k } else { k + 1 };
                    assert(self.holdings[k] == kept[was]);
                }
            }
        } else {
            self.holdings[at].serials.remove(i);
            proof {
                assert(rest.to_set().contains(rest[0]));
                assert(rest.to_set() != Set::<u64>::empty());
                lemma_to_map_update(before, at as int, rest.to_set());
                assert(self.entries() =~= before.update(
                    at as int,
                    (before[at as int].0, rest.to_set()),
                ));
                assert forall|k: int| 0 <= k < self.holdings.len() implies (
                #[trigger] self.holdings[k]).serials@.len() > 0
                    && self.holdings[k].serials@.no_duplicates() by {
                    if k != at {
                        assert(self.holdings[k] == kept[k]);
                    }
                }
            }
        }
    }
}

} // verus!
