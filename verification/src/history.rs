//! Bounded in-memory message history: the last `HISTORY_CAPACITY` historic
//! envelopes, oldest first, replayed to every newly joined session.

use vstd::prelude::*;

use crate::envelope::{Envelope, MessageType};

verus! {

/// Capacity of the history ring.
pub const HISTORY_CAPACITY: usize = 100;

/// Only chat and system messages are historic; command envelopes are never
/// recorded.
pub open spec fn is_historic(e: Envelope) -> bool {
    !(e is Command)
}

/// Ordered bounded sequence of envelopes, oldest at index 0.
pub struct MessageHistory {
    pub items: Vec<MessageType>,
}

impl View for MessageHistory {
    type V = Seq<Envelope>;

    open spec fn view(&self) -> Seq<Envelope> {
        self.items.deep_view()
    }
}

impl MessageHistory {
    /// The bound always holds of a history built by these methods.
    pub open spec fn wf(&self) -> bool {
        self@.len() <= HISTORY_CAPACITY
    }

    pub fn new() -> (h: Self)
        ensures
            h@ == Seq::<Envelope>::empty(),
            h.wf(),
    {
        let h = MessageHistory { items: Vec::new() };
        proof {
            assert(h@ =~= Seq::<Envelope>::empty());
        }
        h
    }

    pub fn len(&self) -> (n: usize)
        ensures
            n == self@.len(),
    {
        self.items.len()
    }

    /// Appends a historic envelope at the tail, evicting the oldest entry
    /// first when the ring is full.  A command envelope leaves the history
    /// unchanged.
    pub fn append(&mut self, m: MessageType)
        requires
            old(self).wf(),
        ensures
            final(self).wf(),
            !is_historic(m@) ==> final(self)@ == old(self)@,
            is_historic(m@) && old(self)@.len() < HISTORY_CAPACITY ==> final(self)@ == old(
                self,
            )@.push(m@),
            is_historic(m@) && old(self)@.len() == HISTORY_CAPACITY ==> final(self)@ == old(
                self,
            )@.subrange(1, HISTORY_CAPACITY as int).push(m@),
    {
        let ghost pre = self@;
        match &m {
            MessageType::Command { .. } => {
                return ;
            },
            _ => {},
        }
        if self.items.len() == HISTORY_CAPACITY {
            self.items.remove(0);
            proof {
                assert(self@ =~= pre.subrange(1, HISTORY_CAPACITY as int));
            }
        }
        let ghost mid = self@;
        self.items.push(m);
        proof {
            assert(self@ =~= mid.push(m@));
        }
    }

    /// A consistent copy of the current contents, oldest to newest; later
    /// appends do not affect it.
    pub fn snapshot(&self) -> (v: Vec<MessageType>)
        ensures
            v.deep_view() == self@,
    {
        let mut v: Vec<MessageType> = Vec::new();
        let mut i: usize = 0;
        while i < self.items.len()
            invariant
                i <= self.items.len(),
                v@.len() == i,
                forall|k: int| 0 <= k < i ==> (#[trigger] v@[k])@ == self@[k],
            decreases self.items.len() - i,
        {
            let item = self.items[i].clone();
            proof {
                assert(item@ == self@[i as int]);
            }
            v.push(item);
            i += 1;
        }
        proof {
            assert forall|k: int| 0 <= k < v@.len() implies v.deep_view()[k] == self@[k] by {
                assert(v@[k]@ == self@[k]);
            }
            assert(v.deep_view() =~= self@);
        }
        v
    }
}

} // verus!
