//! The action store: a queue of pending actions, middlewares that see every
//! action before the reducer, and the loop that drains the queue one action
//! at a time, in order.

use vstd::prelude::*;
use std::collections::VecDeque;

verus! {

/// The queue of pending actions. Actions enter at the front and leave at the
/// back, so the store processes them first-in, first-out.
pub struct Dispatcher<A> {
    actions: VecDeque<A>,
}

impl<A> Dispatcher<A> {
    /// The queued actions, oldest last.
    pub closed spec fn view_queue(&self) -> Seq<A> {
        self.actions@
    }

    pub fn new() -> (r: Dispatcher<A>)
        ensures
            r.view_queue().len() == 0,
    {
        Dispatcher { actions: VecDeque::new() }
    }

    pub fn is_empty(&self) -> (r: bool)
        ensures
            r == (self.view_queue().len() == 0),
    {
        self.actions.len() == 0
    }

    /// Enqueues an action.
    pub fn push_front(&mut self, action: A)
        ensures
            final(self).view_queue() == seq![action] + old(self).view_queue(),
    {
        self.actions.push_front(action);
    }

    /// Enqueues an action; the name the callers of the store know.
    pub fn dispatch(&mut self, action: A)
        ensures
            final(self).view_queue() == seq![action] + old(self).view_queue(),
    {
        self.push_front(action);
    }

    /// Takes the oldest queued action.
    pub fn pop_back(&mut self) -> (r: Option<A>)
        ensures
            old(self).view_queue().len() == 0 ==> r is None && final(self).view_queue() == old(
                self,
            ).view_queue(),
            old(self).view_queue().len() > 0 ==> (r matches Some(a) && a == old(
                self,
            ).view_queue().last() && final(self).view_queue() == old(
                self,
            ).view_queue().drop_last()),
    {
        self.actions.pop_back()
    }
}

/// A state a store can reduce actions into. `transition` is the state's own
/// statement of what one reduction does; `reduce` is held to it.
pub trait State<A> {
    spec fn transition(pre: &Self, action: &A, post: &Self) -> bool;

    fn reduce(&mut self, action: A)
        ensures
            Self::transition(old(self), &action, final(self)),
    ;
}

/// A run of transitions: the state walks the actions in order.
pub open spec fn runs_to<S: State<A>, A>(s0: S, actions: Seq<A>, s1: S) -> bool
    decreases actions.len(),
{
    if actions.len() == 0 {
        s1 == s0
    } else {
        exists|mid: S|
            #[trigger] S::transition(&s0, &actions[0], &mid) && runs_to(
                mid,
                actions.drop_first(),
                s1,
            )
    }
}

/// Extending a run by one transition at its end.
pub proof fn lemma_runs_to_snoc<S: State<A>, A>(s0: S, actions: Seq<A>, s1: S, a: A, s2: S)
    requires
        runs_to(s0, actions, s1),
        S::transition(&s1, &a, &s2),
    ensures
        runs_to(s0, actions.push(a), s2),
    decreases actions.len(),
{
    if actions.len() == 0 {
        assert(actions.push(a)[0] == a);
        assert(actions.push(a).drop_first() =~= actions);
        assert(S::transition(&s1, &a, &s2) && runs_to(s2, actions, s2));
        assert(S::transition(&s0, &actions.push(a)[0], &s2));
    } else {
        let mid = choose|mid: S|
            #[trigger] S::transition(&s0, &actions[0], &mid) && runs_to(
                mid,
                actions.drop_first(),
                s1,
            );
        lemma_runs_to_snoc(mid, actions.drop_first(), s1, a, s2);
        assert(actions.push(a).drop_first() =~= actions.drop_first().push(a));
        assert(actions.push(a)[0] == actions[0]);
        assert(S::transition(&s0, &actions.push(a)[0], &mid) && runs_to(
            mid,
            actions.push(a).drop_first(),
            s2,
        ));
    }
}

/// A stage every action passes before the reducer. It may swallow the action,
/// replace it, and enqueue follow-ups.
pub trait Middleware<S, A> {
    fn apply(&mut self, state: &S, action: A, dispatcher: &mut Dispatcher<A>) -> Option<A>;
}

/// The store: the state, its middlewares, and the queue.
pub struct Store<S, A, M> {
    state: S,
    idle_event: Option<(A, u64)>,
    middlewares: Vec<M>,
    dispatcher: Dispatcher<A>,
}

impl<S: State<A>, A, M: Middleware<S, A>> Store<S, A, M> {
    pub fn new(state: S) -> (r: Store<S, A, M>)
        ensures
            r.pending().len() == 0,
            r.state_spec() == state,
            r.middleware_count() == 0,
    {
        Store { state, idle_event: None, middlewares: Vec::new(), dispatcher: Dispatcher::new() }
    }

    /// A store that, once drained, keeps feeding itself `idle_event` with a
    /// pause of `pause_ms` between rounds; the pausing itself is the
    /// caller's.
    pub fn new_with_idle(state: S, idle_event: A, pause_ms: u64) -> (r: Store<S, A, M>)
        ensures
            r.pending().len() == 0,
            r.state_spec() == state,
            r.middleware_count() == 0,
    {
        Store {
            state,
            idle_event: Some((idle_event, pause_ms)),
            middlewares: Vec::new(),
            dispatcher: Dispatcher::new(),
        }
    }

    /// The queued actions, oldest last.
    pub closed spec fn pending(&self) -> Seq<A> {
        self.dispatcher.view_queue()
    }

    /// The current state, as a value.
    pub closed spec fn state_spec(&self) -> S {
        self.state
    }

    /// How many middlewares are registered.
    pub closed spec fn middleware_count(&self) -> nat {
        self.middlewares@.len()
    }

    pub fn add_middleware(&mut self, middleware: M)
        ensures
            final(self).pending() == old(self).pending(),
            final(self).state_spec() == old(self).state_spec(),
            final(self).middleware_count() == old(self).middleware_count() + 1,
    {
        self.middlewares.push(middleware);
    }

    /// Enqueues an action for the next rounds.
    pub fn dispatch(&mut self, action: A)
        ensures
            final(self).pending() == seq![action] + old(self).pending(),
            final(self).state_spec() == old(self).state_spec(),
            final(self).middleware_count() == old(self).middleware_count(),
    {
        self.dispatcher.push_front(action);
    }

    /// The current state.
    pub closed spec fn state_view(&self) -> &S {
        &self.state
    }

    pub fn get_state(&self) -> (r: &S)
        ensures
            r == self.state_view(),
            *r == self.state_spec(),
    {
        &self.state
    }

    /// Enqueues the initial action, then processes queued actions first-in
    /// first-out: each passes through every middleware in registration order
    /// and, if none swallows it, reaches the reducer. Stops after `max_steps`
    /// actions or once the queue is empty. Without middlewares, and with
    /// enough steps, the state walks every queued action, oldest first, and
    /// the queue drains.
    pub fn event_loop_with(&mut self, initial_action: A, max_steps: usize)
        ensures
            old(self).middleware_count() == 0 && max_steps >= old(self).pending().len() + 1 ==> {
                &&& final(self).pending().len() == 0
                &&& runs_to(
                    old(self).state_spec(),
                    (seq![initial_action] + old(self).pending()).reverse(),
                    final(self).state_spec(),
                )
            },
    {
        self.dispatcher.push_front(initial_action);
        let ghost all = self.dispatcher.view_queue();
        let ghost s0 = self.state;
        let mut steps: usize = 0;
        proof {
            assert(all.reverse().take(0) =~= Seq::<A>::empty());
        }
        while steps < max_steps
            invariant
                self.middlewares@.len() == old(self).middlewares@.len(),
                steps <= max_steps,
                all == seq![initial_action] + old(self).pending(),
                s0 == old(self).state_spec(),
                old(self).middlewares@.len() == 0 ==> {
                    &&& steps <= all.len()
                    &&& self.dispatcher.view_queue() == all.take(all.len() - steps)
                    &&& runs_to(s0, all.reverse().take(steps as int), self.state)
                },
            decreases max_steps - steps,
        {
            let ghost queue_pre = self.dispatcher.view_queue();
            let action = match self.dispatcher.pop_back() {
                Some(a) => a,
                None => {
                    proof {
                        if old(self).middlewares@.len() == 0 {
                            assert(all.take(all.len() - steps).len() == 0);
                            assert(all.reverse().take(steps as int) =~= all.reverse());
                        }
                    }
                    return;
                },
            };
            let ghost a_ghost = action;
            let ghost state_pre = self.state;
            let mut carried = Some(action);
            let mut i: usize = 0;
            let n = self.middlewares.len();
            while i < n
                invariant
                    n == self.middlewares@.len(),
                    n == 0 ==> carried == Some(a_ghost) && self.dispatcher.view_queue()
                        == queue_pre.drop_last() && self.state == state_pre,
                decreases n - i,
            {
                match carried {
                    Some(a) => {
                        carried = self.middlewares[i].apply(&self.state, a, &mut self.dispatcher);
                    },
                    None => {
                        break;
                    },
                }
                i = i + 1;
            }
            let ghost state_mid = self.state;
            match carried {
                Some(a) => {
                    self.state.reduce(a);
                },
                None => {},
            }
            proof {
                if old(self).middlewares@.len() == 0 {
                    assert(queue_pre.len() > 0);
                    assert(a_ghost == queue_pre.last());
                    assert(queue_pre == all.take(all.len() - steps));
                    assert(a_ghost == all[all.len() - steps - 1]);
                    assert(all.reverse()[steps as int] == all[all.len() - 1 - steps]);
                    assert(queue_pre.drop_last() =~= all.take(all.len() - (steps + 1)));
                    assert(state_mid == state_pre);
                    assert(S::transition(&state_pre, &a_ghost, &self.state));
                    lemma_runs_to_snoc(
                        s0,
                        all.reverse().take(steps as int),
                        state_pre,
                        a_ghost,
                        self.state,
                    );
                    assert(all.reverse().take(steps as int).push(a_ghost) =~= all.reverse().take(
                        steps as int + 1,
                    ));
                }
            }
            steps = steps + 1;
        }
        proof {
            if old(self).middlewares@.len() == 0 && max_steps >= all.len() {
                assert(steps == max_steps);
                assert(all.take(all.len() - steps).len() == 0);
                assert(all.reverse().take(steps as int) =~= all.reverse());
            }
        }
    }
}

} // verus!
