//! The shared memory budget that bounds the buffers of in-memory compression.
//!
//! Workers take a permit for the bytes they are about to buffer and hand it
//! back when the compressed file has been written out. The budget itself only
//! decides: whether a request fits now, and what is left afterwards. Waiting
//! for memory to come back is left to the caller, which retries after a
//! permit has been released.
use vstd::prelude::*;

verus! {

/// What a budget holds: the bytes it was created with, the bytes not
/// currently handed out, and the bytes held by its outstanding permits.
pub struct BudgetView {
    pub capacity: nat,
    pub available: nat,
    pub outstanding: nat,
}

/// Conservation: what is available and what its permits hold always add up
/// to what the budget was created with.
pub open spec fn budget_wf(b: BudgetView) -> bool {
    b.available + b.outstanding == b.capacity
}

/// The budget after handing out `bytes`, if they are available now.
pub open spec fn acquire_model(b: BudgetView, bytes: nat) -> Option<BudgetView> {
    if bytes <= b.available {
        Some(
            BudgetView {
                capacity: b.capacity,
                available: (b.available - bytes) as nat,
                outstanding: b.outstanding + bytes,
            },
        )
    } else {
        None
    }
}

/// The budget after a permit for `bytes` comes back.
pub open spec fn release_model(b: BudgetView, bytes: nat) -> BudgetView {
    BudgetView {
        capacity: b.capacity,
        available: b.available + bytes,
        outstanding: (b.outstanding - bytes) as nat,
    }
}

/// Bytes handed out by a budget, to be given back to that budget when done.
pub struct MemoryPermit {
    bytes: u64,
    budget: Ghost<int>,
}

impl MemoryPermit {
    /// The number of bytes this permit holds.
    pub closed spec fn amount(&self) -> nat {
        self.bytes as nat
    }

    /// The identity of the budget that granted this permit.
    pub closed spec fn budget_id(&self) -> int {
        self.budget@
    }

    /// The number of bytes this permit holds.
    pub fn bytes(&self) -> (r: u64)
        ensures
            r as nat == self.amount(),
    {
        self.bytes
    }
}

/// A counting budget of bytes.
pub struct MemoryBudget {
    capacity: u64,
    available: u64,
    outstanding: Ghost<nat>,
    id: Ghost<int>,
}

impl View for MemoryBudget {
    type V = BudgetView;

    closed spec fn view(&self) -> BudgetView {
        BudgetView {
            capacity: self.capacity as nat,
            available: self.available as nat,
            outstanding: self.outstanding@,
        }
    }
}

impl MemoryBudget {
    #[verifier::type_invariant]
    spec fn inv(self) -> bool {
        self.available + self.outstanding@ == self.capacity
    }

    /// The identity of this budget, which its permits carry. It is abstract:
    /// no contract says what it is, only that it stays the same for the
    /// budget's lifetime and that a permit granted here carries it. So a
    /// caller can prove that a permit goes back to the budget that granted it,
    /// and cannot prove it for a permit of any other budget.
    pub closed spec fn id(&self) -> int {
        self.id@
    }

    /// A budget of `bytes`, all of them available.
    pub fn new(bytes: u64) -> (r: MemoryBudget)
        ensures
            r@ == (BudgetView { capacity: bytes as nat, available: bytes as nat, outstanding: 0 }),
            budget_wf(r@),
    {
        MemoryBudget { capacity: bytes, available: bytes, outstanding: Ghost(0), id: Ghost(0) }
    }

    /// The bytes this budget was created with.
    pub fn capacity(&self) -> (r: u64)
        ensures
            r as nat == self@.capacity,
            budget_wf(self@),
    {
        proof {
            use_type_invariant(self);
        }
        self.capacity
    }

    /// The bytes not handed out at present.
    pub fn available(&self) -> (r: u64)
        ensures
            r as nat == self@.available,
            budget_wf(self@),
    {
        proof {
            use_type_invariant(self);
        }
        self.available
    }

    /// The bytes held by outstanding permits at present.
    pub fn in_use(&self) -> (r: u64)
        ensures
            r as nat == self@.outstanding,
            budget_wf(self@),
    {
        proof {
            use_type_invariant(self);
        }
        self.capacity - self.available
    }

    /// Hands out a permit for `bytes` if that many are available now; otherwise
    /// leaves the budget as it is and returns `None`, and the caller waits for
    /// a permit to be released before asking again.
    pub fn acquire(&mut self, bytes: u64) -> (r: Option<MemoryPermit>)
        ensures
            match acquire_model(old(self)@, bytes as nat) {
                Some(after) => final(self)@ == after && (r matches Some(p) && p.amount()
                    == bytes as nat && p.budget_id() == old(self).id()),
                None => final(self)@ == old(self)@ && r is None,
            },
            final(self).id() == old(self).id(),
            budget_wf(final(self)@),
    {
        proof {
            use_type_invariant(&*self);
        }
        if bytes <= self.available {
            let id = self.id;
            *self = MemoryBudget {
                capacity: self.capacity,
                available: self.available - bytes,
                outstanding: Ghost((self.outstanding@ + bytes) as nat),
                id,
            };
            Some(MemoryPermit { bytes, budget: Ghost(id@) })
        } else {
            None
        }
    }

    /// Takes back the bytes of a permit this budget granted.
    pub fn release(&mut self, permit: MemoryPermit)
        requires
            permit.budget_id() == old(self).id(),
            permit.amount() <= old(self)@.outstanding,
        ensures
            final(self)@ == release_model(old(self)@, permit.amount()),
            final(self).id() == old(self).id(),
            budget_wf(final(self)@),
    {
        proof {
            use_type_invariant(&*self);
        }
        let id = self.id;
        *self = MemoryBudget {
            capacity: self.capacity,
            available: self.available + permit.bytes,
            outstanding: Ghost((self.outstanding@ - permit.bytes) as nat),
            id,
        };
    }
}

/// Handing out bytes and taking them back leaves the budget as it was.
pub proof fn lemma_release_undoes_acquire(b: BudgetView, bytes: nat)
    requires
        budget_wf(b),
        bytes <= b.available,
    ensures
        acquire_model(b, bytes) is Some,
        release_model(acquire_model(b, bytes).unwrap(), bytes) == b,
{
}

/// Acquiring and releasing conserve the budget: available plus outstanding
/// stays equal to the capacity, which never changes, so nothing available
/// ever exceeds the capacity or falls below zero.
pub proof fn lemma_budget_stays_consistent(b: BudgetView, bytes: nat)
    requires
        budget_wf(b),
    ensures
        acquire_model(b, bytes) matches Some(after) ==> budget_wf(after) && after.capacity
            == b.capacity && after.available + bytes == b.available && after.outstanding
            == b.outstanding + bytes,
        bytes <= b.outstanding ==> budget_wf(release_model(b, bytes)) && release_model(
            b,
            bytes,
        ).available <= b.capacity,
        release_model(b, bytes).capacity == b.capacity,
{
}

/// Two requests granted one after the other, with nothing released between
/// them, together never exceed what was available before the first.
pub proof fn lemma_no_overcommit(b: BudgetView, first: nat, second: nat)
    requires
        budget_wf(b),
        acquire_model(b, first) is Some,
        acquire_model(acquire_model(b, first).unwrap(), second) is Some,
    ensures
        first + second <= b.available,
        budget_wf(acquire_model(acquire_model(b, first).unwrap(), second).unwrap()),
{
}

/// A request no larger than the budget's capacity is granted once every
/// permit has been given back, so such a request never waits forever.
pub proof fn lemma_request_within_capacity_is_granted_when_idle(b: BudgetView, bytes: nat)
    requires
        budget_wf(b),
        b.outstanding == 0,
        bytes <= b.capacity,
    ensures
        acquire_model(b, bytes) is Some,
{
}

} // verus!
