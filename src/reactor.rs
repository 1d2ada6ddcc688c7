use vstd::prelude::*;
use std::collections::HashMap;
use crate::scheduler::{Scheduler, TaskId, Waker, woken_all};

verus! {

broadcast use vstd::std_specs::hash::group_hash_axioms;

/// Names one registered source. Tokens are handed out by the reactor in
/// increasing order and never reused, whatever descriptor the source has.
#[derive(Clone, Copy, Debug, PartialEq, Eq, Structural)]
pub struct Token {
    pub id: u64,
}

/// Which readiness a source is registered for.
#[derive(Clone, Copy, Debug, PartialEq, Eq, Structural)]
pub struct Interest {
    pub readable: bool,
    pub writable: bool,
}

impl Interest {
    /// Read readiness only, as a listening socket wants.
    pub fn readable() -> (r: Interest)
        ensures
            r == (Interest { readable: true, writable: false }),
    {
        Interest { readable: true, writable: false }
    }

    /// Read and write readiness, as a connection wants.
    pub fn read_write() -> (r: Interest)
        ensures
            r == (Interest { readable: true, writable: true }),
    {
        Interest { readable: true, writable: true }
    }
}

/// One entry of the registration table.
#[derive(Clone, Copy, Debug, PartialEq, Eq, Structural)]
pub struct Registration {
    pub interest: Interest,
    pub waker: Waker,
}

/// The tasks to wake for a batch of ready tokens: the waker of each
/// registered token, in the order of the batch; unknown tokens are skipped.
pub open spec fn wakers_for(reg: Map<u64, Registration>, ready: Seq<Token>) -> Seq<TaskId>
    decreases ready.len(),
{
    if ready.len() == 0 {
        Seq::empty()
    } else {
        let rest = wakers_for(reg, ready.drop_last());
        if reg.contains_key(ready.last().id) {
            rest.push(reg[ready.last().id].waker.task)
        } else {
            rest
        }
    }
}

/// The registration table of a readiness reactor: which waker each
/// registered source invokes. The multiplexer itself is driven by the caller.
pub struct Reactor {
    tasks: HashMap<u64, Registration>,
    next_token: u64,
}

impl View for Reactor {
    type V = Map<u64, Registration>;

    closed spec fn view(&self) -> Map<u64, Registration> {
        self.tasks@
    }
}

impl Reactor {
    /// The token that the next registration receives.
    pub closed spec fn next_token(&self) -> u64 {
        self.next_token
    }

    /// Every registered token was handed out before.
    pub open spec fn wf(&self) -> bool {
        forall|k: u64| #[trigger] self@.contains_key(k) ==> k < self.next_token()
    }

    pub fn new() -> (r: Reactor)
        ensures
            r.wf(),
            r@ == Map::<u64, Registration>::empty(),
            r.next_token() == 0,
    {
        Reactor { tasks: HashMap::new(), next_token: 0 }
    }

    /// How many sources are registered.
    pub fn len(&self) -> (r: usize)
        ensures
            r == self@.len(),
    {
        self.tasks.len()
    }

    /// Registers a new source for `interest`, whose readiness invokes
    /// `waker`, under a fresh token; `None` once every token has been handed
    /// out.
    pub fn add(&mut self, interest: Interest, waker: Waker) -> (r: Option<Token>)
        requires
            old(self).wf(),
        ensures
            final(self).wf(),
            match r {
                Some(t) => {
                    &&& old(self).next_token() < u64::MAX
                    &&& t.id == old(self).next_token()
                    &&& !old(self)@.contains_key(t.id)
                    &&& final(self).next_token() == old(self).next_token() + 1
                    &&& final(self)@ == old(self)@.insert(t.id, Registration { interest, waker })
                },
                None => {
                    &&& old(self).next_token() == u64::MAX
                    &&& final(self)@ == old(self)@
                    &&& final(self).next_token() == old(self).next_token()
                },
            },
    {
        if self.next_token == u64::MAX {
            return None;
        }
        let t = Token { id: self.next_token };
        self.next_token = self.next_token + 1;
        self.tasks.insert(t.id, Registration { interest, waker });
        assert forall|k: u64| #[trigger] self@.contains_key(k) implies k < self.next_token() by {
            if k != t.id {
                assert(old(self)@.contains_key(k));
            }
        }
        Some(t)
    }

    /// Replaces the interest and the waker of a registered source, so that at
    /// most one waker stands for each token; an unknown token is left
    /// unregistered and reported by `false`.
    pub fn rearm(&mut self, token: Token, interest: Interest, waker: Waker) -> (r: bool)
        requires
            old(self).wf(),
        ensures
            final(self).wf(),
            r == old(self)@.contains_key(token.id),
            final(self).next_token() == old(self).next_token(),
            final(self)@ == if r {
                old(self)@.insert(token.id, Registration { interest, waker })
            } else {
                old(self)@
            },
    {
        if !self.tasks.contains_key(&token.id) {
            return false;
        }
        self.tasks.insert(token.id, Registration { interest, waker });
        assert forall|k: u64| #[trigger] self@.contains_key(k) implies k < self.next_token() by {
            assert(old(self)@.contains_key(k));
        }
        true
    }

    /// Removes a registration. An absent token is tolerated: the table is
    /// left as it was and `false` reports it.
    pub fn remove(&mut self, token: Token) -> (r: bool)
        requires
            old(self).wf(),
        ensures
            final(self).wf(),
            r == old(self)@.contains_key(token.id),
            final(self)@ == old(self)@.remove(token.id),
            final(self).next_token() == old(self).next_token(),
    {
        let r = self.tasks.remove(&token.id);
        assert forall|k: u64| #[trigger] self@.contains_key(k) implies k < self.next_token() by {
            assert(old(self)@.contains_key(k));
        }
        r.is_some()
    }

    /// Hands the readiness batch of one blocking wait to the wakers: each
    /// registered ready source wakes its task once, in the order of the
    /// batch.
    pub fn wait(&self, ready: &Vec<Token>, sched: &mut Scheduler)
        requires
            self.wf(),
            old(sched).wf(),
            forall|k: u64| #[trigger] self@.contains_key(k) ==> self@[k].waker.task.id < old(sched).next_id(),
        ensures
            final(sched).wf(),
            final(sched).next_id() == old(sched).next_id(),
            final(sched)@ == woken_all(old(sched)@, wakers_for(self@, ready@)),
    {
        let mut i: usize = 0;
        while i < ready.len()
            invariant
                0 <= i <= ready@.len(),
                sched.wf(),
                sched.next_id() == old(sched).next_id(),
                forall|k: u64| #[trigger] self@.contains_key(k) ==> self@[k].waker.task.id < old(sched).next_id(),
                sched@ == woken_all(old(sched)@, wakers_for(self@, ready@.take(i as int))),
            decreases ready@.len() - i,
        {
            let t = ready[i];
            let ghost prefix = ready@.take(i + 1);
            assert(prefix.drop_last() == ready@.take(i as int));
            assert(prefix.last() == t);
            match self.tasks.get(&t.id) {
                Some(reg) => {
                    reg.waker.wake(sched);
                    assert(wakers_for(self@, prefix) == wakers_for(self@, ready@.take(i as int)).push(reg.waker.task));
                    assert(wakers_for(self@, prefix).drop_last() == wakers_for(self@, ready@.take(i as int)));
                },
                None => {
                    assert(wakers_for(self@, prefix) == wakers_for(self@, ready@.take(i as int)));
                },
            }
            i = i + 1;
        }
        assert(ready@.take(ready@.len() as int) == ready@);
    }
}


/// Registering a source and deregistering it again leaves the registration
/// table as it was, its size included.
pub proof fn lemma_register_then_deregister(m: Map<u64, Registration>, k: u64, w: Registration)
    requires
        !m.contains_key(k),
    ensures
        m.insert(k, w).remove(k) == m,
        m.dom().finite() ==> m.insert(k, w).remove(k).len() == m.len(),
{
    assert(m.insert(k, w).remove(k) =~= m);
}

} // verus!
