use vstd::prelude::*;

verus! {

/// A subscriber's interest in one event of one state machine.
#[derive(Clone, Copy, Debug, PartialEq, Eq, Structural)]
pub struct Subscription {
    pub sm_id: u64,
    pub event_id: u64,
    pub subscriber: u64,
}

impl View for Subscription {
    type V = (u64, u64, u64);

    open spec fn view(&self) -> (u64, u64, u64) {
        (self.sm_id, self.event_id, self.subscriber)
    }
}

/// The subscribers of event `event_id` of machine `sm_id`, in order of subscription.
pub open spec fn subscribers_of(s: Seq<(u64, u64, u64)>, sm_id: u64, event_id: u64) -> Seq<u64>
    decreases s.len(),
{
    if s.len() == 0 {
        Seq::empty()
    } else {
        let rest = subscribers_of(s.drop_last(), sm_id, event_id);
        if s.last().0 == sm_id && s.last().1 == event_id {
            rest.push(s.last().2)
        } else {
            rest
        }
    }
}

/// The subscriptions that do not belong to `subscriber`.
pub open spec fn without(s: Seq<(u64, u64, u64)>, subscriber: u64) -> Seq<(u64, u64, u64)>
    decreases s.len(),
{
    if s.len() == 0 {
        Seq::empty()
    } else {
        let rest = without(s.drop_last(), subscriber);
        if s.last().2 == subscriber {
            rest
        } else {
            rest.push(s.last())
        }
    }
}

/// The subscription table of the notification bus. It only says who is to
/// be told; delivery happens outside the commit path.
pub struct CallbackBus {
    pub subs: Vec<Subscription>,
}

impl View for CallbackBus {
    type V = Seq<(u64, u64, u64)>;

    open spec fn view(&self) -> Seq<(u64, u64, u64)> {
        Seq::new(self.subs@.len(), |i: int| self.subs@[i]@)
    }
}

impl CallbackBus {
    pub fn new() -> (r: CallbackBus)
        ensures
            r@ == Seq::<(u64, u64, u64)>::empty(),
    {
        CallbackBus { subs: Vec::new() }
    }

    /// Adds a subscription; one that exists already is not added twice.
    pub fn subscribe(&mut self, sm_id: u64, event_id: u64, subscriber: u64) -> (r: bool)
        ensures
            r == !old(self)@.contains((sm_id, event_id, subscriber)),
            r ==> final(self)@ == old(self)@.push((sm_id, event_id, subscriber)),
            !r ==> final(self)@ == old(self)@,
    {
        let mut i: usize = 0;
        while i < self.subs.len()
            invariant
                i <= self.subs.len(),
                forall|k: int| 0 <= k < i ==> self@[k] != (sm_id, event_id, subscriber),
            decreases self.subs.len() - i,
        {
            let s = self.subs[i];
            if s.sm_id == sm_id && s.event_id == event_id && s.subscriber == subscriber {
                assert(self@[i as int] == (sm_id, event_id, subscriber));
                return false;
            }
            i = i + 1;
        }
        self.subs.push(Subscription { sm_id, event_id, subscriber });
        assert(final(self)@ =~= old(self)@.push((sm_id, event_id, subscriber)));
        true
    }

    /// Drops every subscription of a subscriber that goes away.
    pub fn unsubscribe_all(&mut self, subscriber: u64)
        ensures
            final(self)@ == without(old(self)@, subscriber),
    {
        let mut kept: Vec<Subscription> = Vec::new();
        let mut i: usize = 0;
        while i < self.subs.len()
            invariant
                i <= self.subs.len(),
                Seq::new(kept@.len(), |k: int| kept@[k]@) == without(self@.take(i as int), subscriber),
            decreases self.subs.len() - i,
        {
            let s = self.subs[i];
            assert(self@.take(i + 1).drop_last() =~= self@.take(i as int));
            if s.subscriber != subscriber {
                kept.push(s);
            }
            proof {
                let kv = Seq::new(kept@.len(), |k: int| kept@[k]@);
                assert(kv =~= without(self@.take(i + 1), subscriber));
            }
            i = i + 1;
        }
        assert(self@.take(self.subs.len() as int) =~= self@);
        self.subs = kept;
    }

    /// The subscribers to notify of event `event_id` of machine `sm_id`.
    pub fn subscribers(&self, sm_id: u64, event_id: u64) -> (r: Vec<u64>)
        ensures
            r@ == subscribers_of(self@, sm_id, event_id),
    {
        let mut out: Vec<u64> = Vec::new();
        let mut i: usize = 0;
        while i < self.subs.len()
            invariant
                i <= self.subs.len(),
                out@ == subscribers_of(self@.take(i as int), sm_id, event_id),
            decreases self.subs.len() - i,
        {
            let s = self.subs[i];
            assert(self@.take(i + 1).drop_last() =~= self@.take(i as int));
            if s.sm_id == sm_id && s.event_id == event_id {
                out.push(s.subscriber);
            }
            i = i + 1;
        }
        assert(self@.take(self.subs.len() as int) =~= self@);
        out
    }
}

} // verus!
