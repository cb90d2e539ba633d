//! A mutex whose owner can be notified.

use vstd::prelude::*;

verus! {

/// A mutex that allows the owner to be notified to run again.
pub struct NotifyMutex<T> {
    /// The number of notifications since the mutex was locked. The mutex is unlocked if
    /// this is zero.
    pub(crate) counter: usize,
    /// The value that the mutex protects.
    pub(crate) value: T,
}

/// The right to use the value of a mutex. It is given up with
/// [`NotifyMutexGuard::try_unlock`], in case a notification arrived in the meantime.
pub struct NotifyMutexGuard {
    /// The number of notifications that the owner of the guard knows of.
    pub(crate) counter: usize,
}

impl NotifyMutexGuard {
    /// The number of notifications that the owner of the guard knows of.
    pub open(crate) spec fn known(self) -> nat {
        self.counter as nat
    }

    /// Whether the guard belongs to a mutex in a state: the mutex is locked, and the
    /// owner has missed none but later notifications.
    pub open spec fn guards<T>(self, mutex: NotifyMutex<T>) -> bool {
        0 < self.known() <= mutex.notifications()
    }
}

impl<T> NotifyMutex<T> {
    /// The number of notifications since the mutex was locked, counting the locking
    /// itself.
    pub open(crate) spec fn notifications(self) -> nat {
        self.counter as nat
    }

    /// The value that the mutex protects.
    pub open(crate) spec fn protected(self) -> T {
        self.value
    }

    /// Whether the mutex is locked.
    pub open spec fn locked(self) -> bool {
        self.notifications() > 0
    }

    /// Creates an unlocked mutex with a value.
    pub fn new(value: T) -> (mutex: Self)
        ensures
            !mutex.locked(),
            mutex.protected() == value,
    {
        NotifyMutex { counter: 0, value }
    }

    /// Tries to lock the mutex. Returns `None` if it is locked already.
    pub fn try_lock(&mut self) -> (guard: Option<NotifyMutexGuard>)
        ensures
            guard is Some <==> !old(self).locked(),
            guard is Some ==> guard->0.known() == 1 && final(self).notifications() == 1
                && guard->0.guards(*final(self)),
            guard is None ==> *final(self) == *old(self),
            final(self).protected() == old(self).protected(),
    {
        if self.counter == 0 {
            self.counter = 1;
            Some(NotifyMutexGuard { counter: 1 })
        } else {
            None
        }
    }

    /// Returns whether the mutex can count one more notification.
    pub fn can_notify(&self) -> (can: bool)
        ensures
            can == (self.notifications() < usize::MAX),
    {
        self.counter < usize::MAX
    }

    /// Tries to lock the mutex, and notifies its owner if it is locked already. The next
    /// call of [`NotifyMutexGuard::try_unlock`] fails then.
    pub fn lock_or_notify(&mut self) -> (guard: Option<NotifyMutexGuard>)
        requires
            old(self).notifications() < usize::MAX,
        ensures
            final(self).notifications() == old(self).notifications() + 1,
            final(self).protected() == old(self).protected(),
            guard is Some <==> !old(self).locked(),
            guard is Some ==> guard->0.known() == 1 && guard->0.guards(*final(self)),
    {
        let lock_taken = self.counter == 0;
        self.counter = self.counter + 1;
        if lock_taken {
            Some(NotifyMutexGuard { counter: 1 })
        } else {
            None
        }
    }

    /// Returns a mutable reference to the value, for the only owner of the mutex.
    pub fn get_mut(&mut self) -> (value: &mut T)
        ensures
            *value == old(self).protected(),
            final(self).protected() == *final(value),
            final(self).notifications() == old(self).notifications(),
    {
        &mut self.value
    }
}

impl NotifyMutexGuard {
    /// Tries to unlock the mutex. Fails with a new guard if there were notifications that
    /// the owner of the guard does not know of.
    pub fn try_unlock<T>(self, mutex: &mut NotifyMutex<T>) -> (unlocked: Result<
        (),
        NotifyMutexGuard,
    >)
        requires
            self.guards(*old(mutex)),
        ensures
            unlocked is Ok <==> self.known() == old(mutex).notifications(),
            unlocked is Ok ==> !final(mutex).locked(),
            unlocked is Err ==> {
                &&& *final(mutex) == *old(mutex)
                &&& unlocked->Err_0.known() == old(mutex).notifications()
                &&& unlocked->Err_0.guards(*final(mutex))
            },
            final(mutex).protected() == old(mutex).protected(),
    {
        if mutex.counter == self.counter {
            mutex.counter = 0;
            Ok(())
        } else {
            Err(NotifyMutexGuard { counter: mutex.counter })
        }
    }

    /// Returns a reference to the value of the mutex.
    pub fn value<'a, T>(&self, mutex: &'a NotifyMutex<T>) -> (value: &'a T)
        requires
            self.guards(*mutex),
        ensures
            *value == mutex.protected(),
    {
        &mutex.value
    }

    /// Returns a mutable reference to the value of the mutex.
    pub fn value_mut<'a, T>(&mut self, mutex: &'a mut NotifyMutex<T>) -> (value: &'a mut T)
        requires
            old(self).guards(*old(mutex)),
        ensures
            *value == old(mutex).protected(),
            final(mutex).protected() == *final(value),
            final(mutex).notifications() == old(mutex).notifications(),
            *final(self) == *old(self),
    {
        &mut mutex.value
    }
}

/// While there is a guard, the mutex cannot be locked.
pub proof fn guarded_mutex_is_locked<T>(mutex: NotifyMutex<T>, guard: NotifyMutexGuard)
    requires
        guard.guards(mutex),
    ensures
        mutex.locked(),
{
}

/// A notification keeps the guard in force and makes the next try to unlock fail.
pub proof fn notification_prevents_unlock<T>(
    before: NotifyMutex<T>,
    after: NotifyMutex<T>,
    guard: NotifyMutexGuard,
)
    requires
        guard.guards(before),
        after.notifications() == before.notifications() + 1,
    ensures
        guard.guards(after),
        guard.known() != after.notifications(),
{
}

} // verus!
