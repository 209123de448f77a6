use vstd::prelude::*;
use crate::store::number::{command, recovered, reply_bytes, Number, NumberError, GET};

verus! {

/// Why a committed entry or a snapshot could not be applied.
#[derive(Clone, Copy, Debug, PartialEq, Eq, Structural)]
pub enum ApplyError {
    /// No state machine is registered under the id.
    Unregistered,
    /// The state machine refused the command or the snapshot.
    Refused(NumberError),
}

/// The value a register holds after running the command `(fid, payload)`.
pub open spec fn after_command(v: i8, fid: u64, payload: Seq<u8>) -> i8 {
    match command(v, fid, payload) {
        Ok((Some(n), _)) => n as i8,
        _ => v,
    }
}

/// The registry, seen as the id and value of each state machine, after the
/// entry `(sm, fid, term, payload)`.
pub open spec fn reg_step(v: Seq<(u64, i8)>, e: (u64, u64, u64, Seq<u8>)) -> Seq<(u64, i8)> {
    Seq::new(
        v.len(),
        |k: int|
            if v[k].0 == e.0 {
                (v[k].0, after_command(v[k].1, e.1, e.3))
            } else {
                v[k]
            },
    )
}

/// What running the entry `e` on the registry `v` replies.
pub open spec fn entry_result(v: Seq<(u64, i8)>, e: (u64, u64, u64, Seq<u8>)) -> Result<Seq<u8>, ApplyError> {
    if exists|k: int| 0 <= k < v.len() && v[k].0 == e.0 {
        let k = choose|k: int| 0 <= k < v.len() && v[k].0 == e.0;
        match command(v[k].1, e.1, e.3) {
            Ok((_, ret)) => Ok(reply_bytes(ret)),
            Err(x) => Err(ApplyError::Refused(x)),
        }
    } else {
        Err(ApplyError::Unregistered)
    }
}

/// `r` is the reply `s`.
pub open spec fn is_result(r: Result<Vec<u8>, ApplyError>, s: Result<Seq<u8>, ApplyError>) -> bool {
    match (r, s) {
        (Ok(a), Ok(b)) => a@ == b,
        (Err(a), Err(b)) => a == b,
        _ => false,
    }
}

/// The registry after the entries `es`, in order.
pub open spec fn run(v: Seq<(u64, i8)>, es: Seq<(u64, u64, u64, Seq<u8>)>) -> Seq<(u64, i8)>
    decreases es.len(),
{
    if es.len() == 0 {
        v
    } else {
        reg_step(run(v, es.drop_last()), es.last())
    }
}

/// Applying entries in two batches leaves the registry as applying them
/// all at once does.
pub proof fn run_in_batches(
    v: Seq<(u64, i8)>,
    es1: Seq<(u64, u64, u64, Seq<u8>)>,
    es2: Seq<(u64, u64, u64, Seq<u8>)>,
)
    ensures
        run(run(v, es1), es2) == run(v, es1 + es2),
    decreases es2.len(),
{
    if es2.len() == 0 {
        assert(es1 + es2 =~= es1);
    } else {
        run_in_batches(v, es1, es2.drop_last());
        assert((es1 + es2).drop_last() =~= es1 + es2.drop_last());
        assert((es1 + es2).last() == es2.last());
    }
}

/// The registry of state machines a node applies committed entries to.
pub struct MasterStateMachine {
    pub machines: Vec<Number>,
}

impl View for MasterStateMachine {
    type V = Seq<(u64, i8)>;

    open spec fn view(&self) -> Seq<(u64, i8)> {
        Seq::new(self.machines@.len(), |k: int| (self.machines@[k].id, self.machines@[k].num))
    }
}

impl MasterStateMachine {
    /// Ids are unique.
    pub open spec fn wf(&self) -> bool {
        forall|i: int, j: int|
            0 <= i < j < self.machines@.len() ==> (#[trigger] self.machines@[i]).id
                != (#[trigger] self.machines@[j]).id
    }

    pub fn new() -> (r: MasterStateMachine)
        ensures
            r.wf(),
            r@ == Seq::<(u64, i8)>::empty(),
    {
        MasterStateMachine { machines: Vec::new() }
    }

    fn find(&self, id: u64) -> (r: Option<usize>)
        ensures
            match r {
                Some(k) => k < self.machines@.len() && self.machines@[k as int].id == id,
                None => forall|k: int| 0 <= k < self.machines@.len() ==> self.machines@[k].id != id,
            },
    {
        let mut i: usize = 0;
        while i < self.machines.len()
            invariant
                i <= self.machines.len(),
                forall|k: int| 0 <= k < i ==> self.machines@[k].id != id,
            decreases self.machines.len() - i,
        {
            if self.machines[i].id == id {
                return Some(i);
            }
            i = i + 1;
        }
        None
    }

    /// Registers a state machine; an id that is taken is never overwritten.
    pub fn register(&mut self, n: Number) -> (r: bool)
        requires
            old(self).wf(),
        ensures
            final(self).wf(),
            r == !old(self)@.map_values(|p: (u64, i8)| p.0).contains(n.id),
            r ==> final(self)@ == old(self)@.push((n.id, n.num)),
            !r ==> final(self)@ == old(self)@,
    {
        let ghost ids = old(self)@.map_values(|p: (u64, i8)| p.0);
        match self.find(n.id) {
            Some(k) => {
                assert(ids[k as int] == n.id);
                false
            },
            None => {
                assert(!ids.contains(n.id)) by {
                    if ids.contains(n.id) {
                        let k = choose|k: int| 0 <= k < ids.len() && ids[k] == n.id;
                        assert(self.machines@[k].id == n.id);
                    }
                }
                self.machines.push(n);
                assert(self@ =~= old(self)@.push((n.id, n.num)));
                true
            },
        }
    }

    /// Runs a committed entry on the state machine it is addressed to.
    pub fn apply_entry(&mut self, sm_id: u64, function_id: u64, payload: &Vec<u8>) -> (r: Result<Vec<u8>, ApplyError>)
        requires
            old(self).wf(),
        ensures
            final(self).wf(),
            final(self)@ == reg_step(old(self)@, (sm_id, function_id, 0u64, payload@)),
            is_result(r, entry_result(old(self)@, (sm_id, function_id, 0u64, payload@))),
    {
        match self.find(sm_id) {
            None => {
                assert forall|k: int| 0 <= k < old(self)@.len() implies old(self)@[k].0 != sm_id by {
                    assert(old(self)@[k].0 == old(self).machines@[k].id);
                }
                assert(self@ =~= reg_step(old(self)@, (sm_id, function_id, 0u64, payload@)));
                Err(ApplyError::Unregistered)
            },
            Some(k) => {
                assert(old(self)@[k as int].0 == sm_id);
                proof {
                    let c = choose|c: int| 0 <= c < old(self)@.len() && old(self)@[c].0 == sm_id;
                    if c != k {
                        assert(old(self).machines@[c].id == old(self).machines@[k as int].id);
                    }
                }
                let mut n = self.machines.remove(k);
                let res = n.apply(function_id, payload);
                self.machines.insert(k, n);
                assert(self@ =~= reg_step(old(self)@, (sm_id, function_id, 0u64, payload@)));
                match res {
                    Ok(b) => Ok(b),
                    Err(e) => Err(ApplyError::Refused(e)),
                }
            },
        }
    }

    /// Replaces the state of machine `sm_id` from a snapshot; on failure
    /// nothing changes.
    pub fn recover(&mut self, sm_id: u64, data: &Vec<u8>) -> (r: Result<(), ApplyError>)
        requires
            old(self).wf(),
        ensures
            final(self).wf(),
            r is Ok ==> exists|k: int|
                0 <= k < old(self)@.len() && old(self)@[k].0 == sm_id && recovered(data@) is Some
                    && final(self)@ == old(self)@.update(k, (sm_id, recovered(data@)->Some_0)),
            r is Err ==> final(self)@ == old(self)@,
            r is Err <==> (recovered(data@) is None || forall|k: int|
                0 <= k < old(self)@.len() ==> old(self)@[k].0 != sm_id),
    {
        match self.find(sm_id) {
            None => {
                assert forall|k: int| 0 <= k < old(self)@.len() implies old(self)@[k].0 != sm_id by {
                    assert(old(self)@[k].0 == old(self).machines@[k].id);
                }
                Err(ApplyError::Unregistered)
            },
            Some(k) => {
                assert(old(self)@[k as int].0 == sm_id);
                let mut n = self.machines.remove(k);
                let res = n.recover(data);
                self.machines.insert(k, n);
                assert(self.machines@ =~= old(self).machines@.update(k as int, n));
                match res {
                    Ok(()) => {
                        assert(self@ =~= old(self)@.update(k as int, (sm_id, recovered(data@)->Some_0)));
                        Ok(())
                    },
                    Err(e) => {
                        assert(self@ =~= old(self)@);
                        Err(ApplyError::Refused(e))
                    },
                }
            },
        }
    }

    /// Answers a query on machine `sm_id` locally, without the log.
    pub fn query(&self, sm_id: u64, function_id: u64, payload: &Vec<u8>) -> (r: Result<Vec<u8>, ApplyError>)
        ensures
            (forall|k: int| 0 <= k < self@.len() ==> self@[k].0 != sm_id) <==> r == Err::<Vec<u8>, ApplyError>(ApplyError::Unregistered),
            forall|k: int| 0 <= k < self@.len() && self@[k].0 == sm_id && function_id == GET && self.wf()
                ==> r is Ok && r->Ok_0@ == seq![self@[k].1 as u8],
            (exists|k: int| 0 <= k < self@.len() && self@[k].0 == sm_id) && function_id != GET ==> r
                == Err::<Vec<u8>, ApplyError>(ApplyError::Refused(NumberError::UnknownFunction)),
    {
        match self.find(sm_id) {
            None => {
                assert forall|k: int| 0 <= k < self@.len() implies self@[k].0 != sm_id by {
                    assert(self@[k].0 == self.machines@[k].id);
                }
                Err(ApplyError::Unregistered)
            },
            Some(k) => {
                assert(self@[k as int].0 == sm_id);
                match self.machines[k].query(function_id, payload) {
                    Ok(b) => Ok(b),
                    Err(e) => Err(ApplyError::Refused(e)),
                }
            },
        }
    }
}

} // verus!
