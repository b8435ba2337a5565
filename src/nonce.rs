use vstd::prelude::*;
use crate::error::SigningError;

verus! {

/// The value that should be persisted before the next allocation.
pub open spec fn candidate_of(last: u64) -> Result<u64, SigningError> {
    if last == u64::MAX {
        Err(SigningError::NonceOverflow)
    } else {
        Ok((last + 1) as u64)
    }
}

/// One allocation from counter value `last`, given whether the candidate was
/// durably recorded: the new counter value and what the caller sees. The
/// counter advances only when the write succeeded.
pub open spec fn allocation(last: u64, persisted: bool) -> (u64, Result<u64, SigningError>) {
    if last == u64::MAX {
        (last, Err(SigningError::NonceOverflow))
    } else if !persisted {
        (last, Err(SigningError::DurableStoreUnavailable))
    } else {
        ((last + 1) as u64, Ok((last + 1) as u64))
    }
}

/// A series of allocations from counter value `last`, one per write outcome:
/// the final counter value and each call's result, in order.
pub open spec fn allocations(last: u64, outcomes: Seq<bool>) -> (u64, Seq<Result<u64, SigningError>>)
    decreases outcomes.len(),
{
    if outcomes.len() == 0 {
        (last, Seq::empty())
    } else {
        let before = allocations(last, outcomes.drop_last());
        let step = allocation(before.0, outcomes.last());
        (step.0, before.1.push(step.1))
    }
}

/// The highest nonce ever issued, recovered from durable storage at start.
/// All access goes through one owner (the caller holds it under a lock), so
/// an allocation runs `next_candidate`, the durable write, then `commit`.
pub struct NonceAllocator {
    last: u64,
}

impl View for NonceAllocator {
    type V = u64;

    closed spec fn view(&self) -> u64 {
        self.last
    }
}

impl NonceAllocator {
    /// Starts from the durably stored value, or zero when none was stored.
    pub fn new(recovered: Option<u64>) -> (r: Self)
        ensures
            r@ == (match recovered {
                Some(n) => n,
                None => 0u64,
            }),
    {
        match recovered {
            Some(n) => NonceAllocator { last: n },
            None => NonceAllocator { last: 0 },
        }
    }

    /// The highest nonce issued so far.
    pub fn last_issued(&self) -> (r: u64)
        ensures
            r == self@,
    {
        self.last
    }

    /// The nonce to persist for the next allocation, or `NonceOverflow`.
    pub fn next_candidate(&self) -> (r: Result<u64, SigningError>)
        ensures
            r == candidate_of(self@),
    {
        if self.last == u64::MAX {
            Err(SigningError::NonceOverflow)
        } else {
            Ok(self.last + 1)
        }
    }

    /// Completes an allocation once the durable write of `next_candidate`'s
    /// value has been attempted; `persisted` tells whether it succeeded.
    /// A failed write leaves the counter as it was.
    pub fn commit(&mut self, persisted: bool) -> (r: Result<u64, SigningError>)
        ensures
            (final(self)@, r) == allocation(old(self)@, persisted),
            persisted && r is Ok ==> candidate_of(old(self)@) == r,
            !persisted ==> final(self)@ == old(self)@,
    {
        if self.last == u64::MAX {
            return Err(SigningError::NonceOverflow);
        }
        if !persisted {
            return Err(SigningError::DurableStoreUnavailable);
        }
        self.last = self.last + 1;
        Ok(self.last)
    }
}

/// `n` allocations whose writes all succeed return exactly `base + 1`, ...,
/// `base + n`, in that order, and leave the counter at `base + n`.
pub proof fn lemma_successful_allocations_are_consecutive(base: u64, n: nat)
    requires
        base + n <= u64::MAX,
    ensures
        allocations(base, Seq::new(n, |i: int| true)).0 == base + n,
        allocations(base, Seq::new(n, |i: int| true)).1 =~= Seq::new(
            n,
            |i: int| Ok::<u64, SigningError>((base + i + 1) as u64),
        ),
    decreases n,
{
    if n > 0 {
        lemma_successful_allocations_are_consecutive(base, (n - 1) as nat);
        assert(Seq::new(n, |i: int| true).drop_last() =~= Seq::new((n - 1) as nat, |i: int| true));
    }
}

/// Whatever the write outcomes, the nonces handed out strictly increase, so no
/// value is ever returned twice; a failed write hands out nothing.
pub proof fn lemma_issued_nonces_strictly_increase(base: u64, outcomes: Seq<bool>)
    ensures
        forall|i: int, j: int|
            0 <= i < j < outcomes.len() && (#[trigger] allocations(base, outcomes).1[i]) is Ok
                && (#[trigger] allocations(base, outcomes).1[j]) is Ok
                ==> allocations(base, outcomes).1[i]->Ok_0 < allocations(base, outcomes).1[j]->Ok_0,
        forall|i: int|
            0 <= i < outcomes.len() && (#[trigger] allocations(base, outcomes).1[i]) is Ok
                ==> allocations(base, outcomes).1[i]->Ok_0 <= allocations(base, outcomes).0,
        forall|i: int|
            0 <= i < outcomes.len() && !outcomes[i] ==> (#[trigger] allocations(base, outcomes).1[i])
                is Err,
        allocations(base, outcomes).1.len() == outcomes.len(),
        base <= allocations(base, outcomes).0,
    decreases outcomes.len(),
{
    if outcomes.len() > 0 {
        let prefix = outcomes.drop_last();
        lemma_issued_nonces_strictly_increase(base, prefix);
        let before = allocations(base, prefix);
        let all = allocations(base, outcomes);
        assert forall|i: int| 0 <= i < prefix.len() implies all.1[i] == before.1[i] by {}
        assert forall|i: int| 0 <= i < prefix.len() implies outcomes[i] == prefix[i] by {}
    }
}

} // verus!
