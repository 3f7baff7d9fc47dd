//! The loan store: a single-slot container that hands out either one
//! exclusive checkout or any number of shared checkouts of its value.
//!
//! The slot is an explicit state machine. An exclusive checkout physically
//! moves the value out of the slot (state [`LoanStorage::LoanMut`]), which is
//! what makes a second writer detectable by state inspection alone; the writer
//! brings the value back with [`LoanStorage::return_exclusive`]. Shared
//! checkouts leave the value in place and are counted; releasing the last one
//! restores the uncontended `Owned` state.

use vstd::prelude::*;

verus! {

/// A receipt for one outstanding shared checkout.
pub struct Loan {
    shares: u64,
}

impl Loan {
    /// How many shared checkouts (this one included) were outstanding on the
    /// slot when this checkout was granted.
    pub fn strong_count(this: &Self) -> (r: u64)
        ensures
            r == this.spec_shares(),
    {
        this.shares
    }

    pub closed spec fn spec_shares(&self) -> u64 {
        self.shares
    }
}

/// A single storage slot and its checkout state.
pub enum LoanStorage<T> {
    /// Never populated (or emptied for good).
    Vacant,
    /// Value present, no checkout outstanding.
    Owned(T),
    /// Value present, the `u64` counts the shared checkouts outstanding
    /// (always at least one).
    Loan(T, u64),
    /// One exclusive checkout outstanding; the value is with the borrower.
    LoanMut,
}

impl<T> LoanStorage<T> {
    /// True when a shared checkout would be granted: the value is present and
    /// no exclusive checkout is outstanding (and the share counter has room).
    pub open spec fn can_checkout_shared(self) -> bool {
        match self {
            LoanStorage::Owned(_) => true,
            LoanStorage::Loan(_, n) => n < u64::MAX,
            _ => false,
        }
    }

    /// True when an exclusive checkout would be granted: only from `Owned`.
    pub open spec fn can_checkout_exclusive(self) -> bool {
        self is Owned
    }

    /// The value currently readable in the slot, if any.
    pub open spec fn readable_value(self) -> Option<T> {
        match self {
            LoanStorage::Owned(v) => Some(v),
            LoanStorage::Loan(v, _) => Some(v),
            _ => None,
        }
    }

    /// Shared checkouts outstanding.
    pub open spec fn spec_share_count(self) -> u64 {
        match self {
            LoanStorage::Loan(_, n) => n,
            _ => 0,
        }
    }

    pub fn new(value: T) -> (r: Self)
        ensures
            r == LoanStorage::Owned(value),
    {
        LoanStorage::Owned(value)
    }

    /// Grants a shared checkout when the state allows one, incrementing the
    /// share count; fails (returning `None`, slot unchanged) while an
    /// exclusive checkout is outstanding or the slot is vacant.
    pub fn checkout_shared(&mut self) -> (r: Option<Loan>)
        ensures
            old(self).can_checkout_shared() ==> {
                &&& r is Some
                &&& *final(self) == LoanStorage::Loan(
                    old(self).readable_value()->Some_0,
                    (old(self).spec_share_count() + 1) as u64,
                )
                &&& r->Some_0.spec_shares() == old(self).spec_share_count() + 1
            },
            !old(self).can_checkout_shared() ==> r is None && *final(self) == *old(self),
            final(self).readable_value() == old(self).readable_value(),
    {
        let mut this = LoanStorage::Vacant;
        core::mem::swap(self, &mut this);
        match this {
            LoanStorage::Owned(v) => {
                *self = LoanStorage::Loan(v, 1);
                Some(Loan { shares: 1 })
            }
            LoanStorage::Loan(v, n) => {
                if n < u64::MAX {
                    *self = LoanStorage::Loan(v, n + 1);
                    Some(Loan { shares: n + 1 })
                } else {
                    *self = LoanStorage::Loan(v, n);
                    None
                }
            }
            other => {
                *self = other;
                None
            }
        }
    }

    /// Releases one shared checkout; the last release restores `Owned`.
    pub fn release_shared(&mut self)
        requires
            *old(self) is Loan,
        ensures
            old(self).spec_share_count() > 1 ==> *final(self) == LoanStorage::Loan(
                old(self).readable_value()->Some_0,
                (old(self).spec_share_count() - 1) as u64,
            ),
            old(self).spec_share_count() <= 1 ==> *final(self) == LoanStorage::Owned(
                old(self).readable_value()->Some_0,
            ),
    {
        let mut this = LoanStorage::Vacant;
        core::mem::swap(self, &mut this);
        match this {
            LoanStorage::Loan(v, n) => {
                if n <= 1 {
                    *self = LoanStorage::Owned(v);
                } else {
                    *self = LoanStorage::Loan(v, n - 1);
                }
            }
            other => {
                *self = other;
            }
        }
    }

    /// Grants the exclusive checkout when the slot is uncontended, moving the
    /// value out of the slot; fails (returning `None`, slot unchanged) in
    /// every other state.
    pub fn checkout_exclusive(&mut self) -> (r: Option<T>)
        ensures
            old(self).can_checkout_exclusive() ==> {
                &&& r == Some(old(self).readable_value()->Some_0)
                &&& *final(self) is LoanMut
            },
            !old(self).can_checkout_exclusive() ==> r is None && *final(self) == *old(self),
    {
        let mut this = LoanStorage::Vacant;
        core::mem::swap(self, &mut this);
        match this {
            LoanStorage::Owned(v) => {
                *self = LoanStorage::LoanMut;
                Some(v)
            }
            other => {
                *self = other;
                None
            }
        }
    }

    /// Brings the exclusively checked-out value back, restoring `Owned`.
    pub fn return_exclusive(&mut self, value: T)
        requires
            *old(self) is LoanMut,
        ensures
            *final(self) == LoanStorage::Owned(value),
    {
        *self = LoanStorage::Owned(value);
    }

    /// Reads the value while it is in the slot (`Owned` or shared).
    pub fn peek(&self) -> (r: Option<&T>)
        ensures
            match r {
                Some(v) => self.readable_value() == Some(*v),
                None => self.readable_value() is None,
            },
    {
        match self {
            LoanStorage::Owned(v) => Some(v),
            LoanStorage::Loan(v, _) => Some(v),
            _ => None,
        }
    }

    /// Recovers full ownership of the value; possible only from `Owned`.
    pub fn into_owned(self) -> (r: Result<T, Self>)
        ensures
            self is Owned ==> r == Result::<T, Self>::Ok(self->Owned_0),
            !(self is Owned) ==> r == Result::<T, Self>::Err(self),
    {
        match self {
            LoanStorage::Owned(v) => Ok(v),
            other => Err(other),
        }
    }

    /// The value, by reference, when the slot is `Owned`.
    pub fn as_owned_ref(&self) -> (r: Option<&T>)
        ensures
            match r {
                Some(v) => *self == LoanStorage::Owned(*v),
                None => !(*self is Owned),
            },
    {
        match self {
            LoanStorage::Owned(v) => Some(v),
            _ => None,
        }
    }

    /// Shared checkouts outstanding right now.
    pub fn share_count(&self) -> (r: u64)
        ensures
            r == self.spec_share_count(),
    {
        match self {
            LoanStorage::Loan(_, n) => *n,
            _ => 0,
        }
    }

    pub fn is_vacant(&self) -> (r: bool)
        ensures
            r == (*self is Vacant),
    {
        matches!(self, LoanStorage::Vacant)
    }
}

impl<T> Default for LoanStorage<T> {
    /// A slot that was never populated.
    fn default() -> (r: Self)
        ensures
            r is Vacant,
    {
        LoanStorage::Vacant
    }
}

/// Exclusivity: while one exclusive checkout is outstanding, neither a second
/// exclusive checkout nor a shared checkout can be granted, and nothing can be
/// read from the slot, until the value is returned.
pub proof fn lemma_exclusive_checkout_excludes<T>(slot: LoanStorage<T>)
    requires
        slot.can_checkout_exclusive(),
    ensures
        !(LoanStorage::<T>::LoanMut).can_checkout_exclusive(),
        !(LoanStorage::<T>::LoanMut).can_checkout_shared(),
        (LoanStorage::<T>::LoanMut).readable_value() is None,
        LoanStorage::Owned(slot.readable_value()->Some_0).can_checkout_exclusive(),
{
}

/// Shared-read concurrency: starting from an uncontended slot, any number of
/// consecutive shared checkouts are all granted, and the value stays readable
/// and unchanged throughout.
pub proof fn lemma_shared_checkouts_all_granted<T>(slot: LoanStorage<T>, n: nat)
    requires
        slot is Owned,
        n >= 1,
        n < u64::MAX,
    ensures
        iterate_shared_checkouts(slot, n).can_checkout_shared(),
        iterate_shared_checkouts(slot, n).readable_value() == slot.readable_value(),
        iterate_shared_checkouts(slot, n).spec_share_count() == n,
    decreases n,
{
    if n > 1 {
        lemma_shared_checkouts_all_granted(slot, (n - 1) as nat);
    } else {
        assert(iterate_shared_checkouts(slot, 0) == slot);
    }
}

/// The slot state after `n` granted shared checkouts of an `Owned` slot.
pub open spec fn iterate_shared_checkouts<T>(slot: LoanStorage<T>, n: nat) -> LoanStorage<T>
    decreases n,
{
    if n == 0 {
        slot
    } else {
        LoanStorage::Loan(iterate_shared_checkouts(slot, (n - 1) as nat).readable_value()->Some_0, n as u64)
    }
}

} // verus!
