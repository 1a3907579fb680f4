use vstd::prelude::*;
use crate::model::{empty_snapshot, Notifications, NotificationsView};

verus! {

/// The cell that holds the latest snapshot. Callers share it behind a
/// reader/writer lock; each write replaces the whole snapshot.
pub struct Store {
    notifications: Notifications,
}

/// What a store holds after `incoming` was written over `current`.
pub open spec fn replaced(current: NotificationsView, incoming: NotificationsView) -> NotificationsView {
    incoming
}

impl View for Store {
    type V = NotificationsView;

    closed spec fn view(&self) -> NotificationsView {
        self.notifications@
    }
}

impl Store {
    /// A store holding the empty snapshot.
    pub fn new() -> (r: Store)
        ensures
            r@ == empty_snapshot(),
    {
        Store { notifications: Notifications::new() }
    }

    /// Replaces the current snapshot by `snapshot`, entirely.
    pub fn write(&mut self, snapshot: Notifications)
        ensures
            final(self)@ == replaced(old(self)@, snapshot@),
    {
        self.notifications = snapshot;
    }

    /// The current snapshot.
    pub fn read(&self) -> (r: &Notifications)
        ensures
            r@ == self@,
    {
        &self.notifications
    }
}

/// Of two writes, the later one decides what a read returns: nothing of
/// the earlier snapshot, nor of the one before both, remains.
pub proof fn lemma_last_write_wins(current: NotificationsView, a: NotificationsView, b: NotificationsView)
    ensures
        replaced(replaced(current, a), b) == b,
{
}

} // verus!
