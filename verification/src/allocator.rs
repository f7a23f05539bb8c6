use vstd::prelude::*;
use crate::error::Error;
use crate::text::MAX_SUPPLY;

verus! {

/// Hands out the serial numbers of tokens.  A serial number set free by a burn
/// waits in the pool of retired numbers and is handed out again, lowest first,
/// before a number that was never used.
pub struct IdentifierAllocator {
    live_count: u64,
    retired: Vec<u64>,
}

impl IdentifierAllocator {
    /// How many tokens are live.
    pub closed spec fn live_count(&self) -> nat {
        self.live_count as nat
    }

    /// The retired serial numbers, in the order in which they are kept.
    pub closed spec fn retired(&self) -> Seq<u64> {
        self.retired@
    }

    /// How many serial numbers have ever been handed out.
    pub open spec fn issued(&self) -> nat {
        self.live_count() + self.retired().len()
    }

    /// No retired number is kept twice, every retired number has been handed
    /// out before, and no more numbers were handed out than the supply allows.
    pub open spec fn wf(&self) -> bool {
        &&& self.retired().no_duplicates()
        &&& forall|j: int| 0 <= j < self.retired().len() ==> #[trigger] self.retired()[j] < self.issued()
        &&& self.issued() <= MAX_SUPPLY
    }

    /// Whether a serial number can be handed out at all.
    pub open spec fn has_room(&self) -> bool {
        self.retired().len() > 0 || self.live_count() < MAX_SUPPLY
    }

    /// Whether `serial` is the number that is handed out next: the lowest
    /// retired number, or the live count when none is retired.
    pub open spec fn is_next(&self, serial: u64) -> bool {
        if self.retired().len() > 0 {
            &&& self.retired().contains(serial)
            &&& forall|j: int| 0 <= j < self.retired().len() ==> serial <= #[trigger] self.retired()[j]
        } else {
            serial == self.live_count()
        }
    }

    /// Whether a live count and a pool of retired numbers fit together as the
    /// state of an allocator.
    pub open spec fn fits(live_count: u64, retired: Seq<u64>) -> bool {
        &&& retired.no_duplicates()
        &&& forall|j: int| 0 <= j < retired.len() ==> #[trigger] retired[j] < live_count + retired.len()
        &&& live_count + retired.len() <= MAX_SUPPLY
    }

    /// A copy of the retired serial numbers, in the order in which they are kept.
    pub fn retired_list(&self) -> (list: Vec<u64>)
        ensures
            list@ == self.retired(),
    {
        let mut list: Vec<u64> = Vec::new();
        let mut i: usize = 0;
        while i < self.retired.len()
            invariant
                i <= self.retired.len(),
                list@ == self.retired@.subrange(0, i as int),
            decreases self.retired.len() - i,
        {
            list.push(self.retired[i]);
            i = i + 1;
            assert(list@ =~= self.retired@.subrange(0, i as int));
        }
        assert(self.retired@.subrange(0, i as int) =~= self.retired@);
        list
    }

    /// Puts an allocator back together from its live count and its pool of
    /// retired numbers, if the two fit together.
    pub fn restore(live_count: u64, retired: Vec<u64>) -> (allocator: Option<IdentifierAllocator>)
        ensures
            allocator is Some <==> Self::fits(live_count, retired@),
            allocator matches Some(a) ==> a.wf() && a.live_count() == live_count && a.retired()
                == retired@,
    {
        if live_count > MAX_SUPPLY || retired.len() > (MAX_SUPPLY - live_count) as usize {
            return None;
        }
        let issued: u64 = live_count + retired.len() as u64;
        let mut i: usize = 0;
        while i < retired.len()
            invariant
                i <= retired.len(),
                issued == live_count + retired.len(),
                forall|a: int| 0 <= a < i ==> #[trigger] retired@[a] < issued,
                forall|a: int, b: int| 0 <= a < b < i ==> retired@[a] != retired@[b],
            decreases retired.len() - i,
        {
            if retired[i] >= issued {
                return None;
            }
            let mut j: usize = 0;
            while j < i
                invariant
                    j <= i < retired.len(),
                    forall|a: int| 0 <= a < j ==> retired@[a] != retired@[i as int],
                decreases i - j,
            {
                if retired[j] == retired[i] {
                    return None;
                }
                j = j + 1;
            }
            i = i + 1;
        }
        Some(IdentifierAllocator { live_count, retired })
    }

    /// An allocator that has handed out nothing.
    pub fn new() -> (allocator: IdentifierAllocator)
        ensures
            allocator.wf(),
            allocator.live_count() == 0,
            allocator.retired() == Seq::<u64>::empty(),
    {
        IdentifierAllocator { live_count: 0, retired: Vec::new() }
    }

    /// The live count.
    pub fn count(&self) -> (count: u64)
        ensures
            count == self.live_count(),
    {
        self.live_count
    }

    /// How many serial numbers are retired.
    pub fn retired_count(&self) -> (count: usize)
        ensures
            count == self.retired().len(),
    {
        self.retired.len()
    }

    /// Whether `serial` is retired.
    pub fn is_retired(&self, serial: u64) -> (found: bool)
        ensures
            found == self.retired().contains(serial),
    {
        let mut i: usize = 0;
        while i < self.retired.len()
            invariant
                i <= self.retired.len(),
                forall|j: int| 0 <= j < i ==> self.retired@[j] != serial,
            decreases self.retired.len() - i,
        {
            if self.retired[i] == serial {
                return true;
            }
            i = i + 1;
        }
        false
    }

    fn lowest_index(&self) -> (at: usize)
        requires
            self.retired().len() > 0,
        ensures
            at < self.retired().len(),
            forall|j: int| 0 <= j < self.retired().len() ==> self.retired()[at as int] <= #[trigger] self.retired()[j],
    {
        let mut at: usize = 0;
        let mut i: usize = 1;
        while i < self.retired.len()
            invariant
                1 <= i <= self.retired.len(),
                at < i,
                forall|j: int| 0 <= j < i ==> self.retired@[at as int] <= #[trigger] self.retired@[j],
            decreases self.retired.len() - i,
        {
            if self.retired[i] < self.retired[at] {
                at = i;
            }
            i = i + 1;
        }
        at
    }

    /// Names the serial number that the next mint receives, without taking it.
    /// Refuses when every number is in use.
    pub fn allocate(&self) -> (next: Result<u64, Error>)
        requires
            self.wf(),
        ensures
            next is Ok <==> self.has_room(),
            next matches Ok(serial) ==> self.is_next(serial) && serial < MAX_SUPPLY,
            next matches Err(e) ==> e == Error::CapacityExceeded,
    {
        if self.retired.len() > 0 {
            let at = self.lowest_index();
            Ok(self.retired[at])
        } else if self.live_count < MAX_SUPPLY {
            Ok(self.live_count)
        } else {
            Err(Error::CapacityExceeded)
        }
    }

    /// Takes the serial number that `allocate` named: it leaves the pool, if it
    /// came from there, and the live count goes up by one.
    pub fn commit(&mut self, serial: u64)
        requires
            old(self).wf(),
            old(self).has_room(),
            old(self).is_next(serial),
        ensures
            final(self).wf(),
            final(self).live_count() == old(self).live_count() + 1,
            old(self).retired().len() == 0 ==> final(self).retired() == old(self).retired(),
            old(self).retired().len() > 0 ==> final(self).retired() == old(self).retired().remove(
                old(self).retired().index_of(serial),
            ),
            forall|k: u64|
                final(self).retired().contains(k) <==> old(self).retired().contains(k) && k
                    != serial,
    {
        if self.retired.len() > 0 {
            let ghost before = self.retired@;
            let ghost found = before.index_of(serial);
            let mut at: usize = 0;
            while self.retired[at] != serial
                invariant
                    self.retired@ == before,
                    0 <= at <= found < before.len() <= usize::MAX,
                    before[found] == serial,
                decreases found - at,
            {
                at = at + 1;
            }
            assert(found == at as int);
            self.retired.remove(at);
            self.live_count = self.live_count + 1;
            proof {
                let after = self.retired@;
                assert forall|k: u64| after.contains(k) <==> before.contains(k) && k
                    != serial by {
                    if after.contains(k) {
                        let j = choose|j: int| 0 <= j < after.len() && after[j] == k;
                        if j < at {
                            assert(before[j] == k);
                        } else {
                            assert(before[j + 1] == k);
                        }
                    }
                    if before.contains(k) && k != serial {
                        let j = choose|j: int| 0 <= j < before.len() && before[j] == k;
                        if j < at {
                            assert(after[j] == k);
                        } else {
                            assert(after[j - 1] == k);
                        }
                    }
                }
                assert forall|j: int| 0 <= j < after.len() implies #[trigger] after[j]
                    < self.issued() by {
                    if j < at {
                        assert(after[j] == before[j]);
                    } else {
                        assert(after[j] == before[j + 1]);
                    }
                }
            }
        } else {
            self.live_count = self.live_count + 1;
        }
    }

    /// Retires the serial number of a token that was burned: it joins the pool
    /// and the live count goes down by one.
    pub fn retire(&mut self, serial: u64)
        requires
            old(self).wf(),
            old(self).live_count() > 0,
            serial < old(self).issued(),
            !old(self).retired().contains(serial),
        ensures
            final(self).wf(),
            final(self).live_count() == old(self).live_count() - 1,
            final(self).retired() == old(self).retired().push(serial),
            forall|k: u64|
                final(self).retired().contains(k) <==> old(self).retired().contains(k) || k
                    == serial,
    {
        let ghost before = self.retired@;
        self.retired.push(serial);
        self.live_count = self.live_count - 1;
        proof {
            let after = self.retired@;
            assert forall|k: u64| after.contains(k) <==> before.contains(k) || k == serial by {
                if after.contains(k) {
                    let j = choose|j: int| 0 <= j < after.len() && after[j] == k;
                    if j < before.len() {
                        assert(before[j] == k);
                    }
                }
                if before.contains(k) {
                    let j = choose|j: int| 0 <= j < before.len() && before[j] == k;
                    assert(after[j] == k);
                }
                if k == serial {
                    assert(after[before.len() as int] == k);
                }
            }
        }
    }
}

} // verus!
