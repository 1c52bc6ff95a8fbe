//! The register of subscriptions: who is told of what arrives, and in which
//! order.
//!
//! A subscription is known by a handle that is given out once and never
//! again. Subscribers are told in the order in which they subscribed. The
//! register holds the handles only; what to call for a handle is kept by
//! the caller.

use vstd::prelude::*;

verus! {

/// What a register holds.
pub struct SubscribersView {
    /// The handles of the subscriptions that last, the oldest first.
    pub handles: Seq<u64>,
    /// The handle that the next subscription gets.
    pub next: u64,
}

impl SubscribersView {
    /// Every handle given out is below the next one, and an older
    /// subscription has the smaller handle; so no handle occurs twice.
    pub open spec fn wf(self) -> bool {
        &&& forall|i: int| 0 <= i < self.handles.len() ==> #[trigger] self.handles[i] < self.next
        &&& forall|i: int, j: int|
            0 <= i < j < self.handles.len() ==> #[trigger] self.handles[i] < #[trigger] self.handles[j]
    }
}

/// The register of the subscriptions to one kind of event.
pub struct Subscribers {
    handles: Vec<u64>,
    next: u64,
}

impl View for Subscribers {
    type V = SubscribersView;

    closed spec fn view(&self) -> SubscribersView {
        SubscribersView { handles: self.handles@, next: self.next }
    }
}

impl Subscribers {
    /// Whether the register is in order.
    pub open spec fn wf(&self) -> bool {
        self@.wf()
    }

    /// A register without subscriptions.
    pub fn new() -> (subscribers: Self)
        ensures
            subscribers.wf(),
            subscribers@.handles.len() == 0,
            subscribers@.next == 0,
    {
        Subscribers { handles: Vec::new(), next: 0 }
    }

    /// Adds a subscription behind all that last and returns its handle, which
    /// no subscription had before. Returns `None`, and changes nothing, when
    /// all handles have been given out.
    pub fn subscribe(&mut self) -> (handle: Option<u64>)
        requires
            old(self).wf(),
        ensures
            final(self).wf(),
            match handle {
                Some(h) => h == old(self)@.next && h < u64::MAX && final(self)@ == (SubscribersView {
                    handles: old(self)@.handles.push(h),
                    next: (h + 1) as u64,
                }),
                None => old(self)@.next == u64::MAX && final(self)@ == old(self)@,
            },
    {
        if self.next == u64::MAX {
            return None;
        }
        let handle = self.next;
        let ghost before = self@.handles;
        self.handles.push(handle);
        self.next = handle + 1;
        proof {
            let now = self.handles@;
            assert forall|i: int| 0 <= i < now.len() implies #[trigger] now[i] < self.next by {
                if i < before.len() {
                    assert(now[i] == before[i]);
                }
            }
            assert forall|i: int, j: int| 0 <= i < j < now.len() implies #[trigger] now[i]
                < #[trigger] now[j] by {
                assert(now[i] == before[i]);
                if j < before.len() {
                    assert(now[j] == before[j]);
                }
            }
        }
        Some(handle)
    }

    /// Ends the subscription `handle` and says whether it lasted. The
    /// others keep their order.
    pub fn unsubscribe(&mut self, handle: u64) -> (ended: bool)
        requires
            old(self).wf(),
        ensures
            final(self).wf(),
            final(self)@.next == old(self)@.next,
            ended == old(self)@.handles.contains(handle),
            !final(self)@.handles.contains(handle),
            ended ==> exists|i: int|
                0 <= i < old(self)@.handles.len() && old(self)@.handles[i] == handle
                    && final(self)@.handles == old(self)@.handles.remove(i),
            !ended ==> final(self)@.handles == old(self)@.handles,
    {
        let mut i: usize = 0;
        while i < self.handles.len()
            invariant
                i <= self.handles@.len(),
                self.handles@ == old(self).handles@,
                self.next == old(self).next,
                self.wf(),
                forall|j: int| 0 <= j < i ==> self.handles@[j] != handle,
            decreases self.handles@.len() - i,
        {
            if self.handles[i] == handle {
                let ghost before = self@.handles;
                self.handles.remove(i);
                proof {
                    let now = self.handles@;
                    assert(now == before.remove(i as int));
                    assert forall|j: int| 0 <= j < now.len() implies #[trigger] now[j]
                        != handle by {
                        if j >= i {
                            assert(now[j] == before[j + 1]);
                            assert(before[i as int] < before[j + 1]);
                        } else {
                            assert(now[j] == before[j]);
                        }
                    }
                    assert forall|j: int| 0 <= j < now.len() implies #[trigger] now[j]
                        < self.next by {
                        if j >= i {
                            assert(now[j] == before[j + 1]);
                        } else {
                            assert(now[j] == before[j]);
                        }
                    }
                    assert forall|j: int, k: int| 0 <= j < k < now.len() implies #[trigger] now[j]
                        < #[trigger] now[k] by {
                        let a = if j >= i { j + 1 } else { j };
                        let b = if k >= i { k + 1 } else { k };
                        assert(now[j] == before[a]);
                        assert(now[k] == before[b]);
                    }
                    assert(before[i as int] == handle);
                }
                return true;
            }
            i += 1;
        }
        false
    }

    /// The handles of the subscriptions that last, in the order in which
    /// their subscribers are to be told.
    pub fn handles(&self) -> (handles: &Vec<u64>)
        ensures
            handles@ == self@.handles,
    {
        &self.handles
    }
}

} // verus!
