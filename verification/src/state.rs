use vstd::prelude::*;

verus! {

/// What the main loop of the program reacts to.
#[derive(Debug, Clone, Copy, PartialEq, Eq, Structural)]
pub enum Event {
    Start,
    End,
    RefreshScreen,
}

impl Event {
    /// The number of variants of `Event`.
    pub const COUNT: usize = 3;

    /// The position of the variant in the declaration, in `0..COUNT`.
    pub open spec fn spec_index(self) -> nat {
        match self {
            Event::Start => 0,
            Event::End => 1,
            Event::RefreshScreen => 2,
        }
    }

    /// The position of the variant in the declaration.
    pub fn index(self) -> (i: usize)
        ensures
            i == self.spec_index(),
            i < Event::COUNT,
    {
        match self {
            Event::Start => 0,
            Event::End => 1,
            Event::RefreshScreen => 2,
        }
    }
}

/// How often `e` occurs in `deps`.
pub open spec fn occurrences(deps: Seq<Event>, e: Event) -> nat
    decreases deps.len(),
{
    if deps.len() == 0 {
        0
    } else {
        occurrences(deps.drop_last(), e) + if deps.last() == e {
            1nat
        } else {
            0nat
        }
    }
}

/// The positions of the handlers that run on `e`, in the order of their
/// registration, given the dependencies of each registered handler: a
/// handler that names `e` twice among its dependencies is listed twice.
pub open spec fn subscription_list(deps: Seq<Seq<Event>>, e: Event) -> Seq<usize>
    decreases deps.len(),
{
    if deps.len() == 0 {
        seq![]
    } else {
        subscription_list(deps.drop_last(), e) + Seq::new(
            occurrences(deps.last(), e),
            |k: int| (deps.len() - 1) as usize,
        )
    }
}

/// Each position in a subscription list is that of a registered handler.
proof fn lemma_subscription_bounds(deps: Seq<Seq<Event>>, e: Event)
    ensures
        forall|m: int|
            0 <= m < subscription_list(deps, e).len() ==> #[trigger] subscription_list(deps, e)[m]
                < deps.len(),
    decreases deps.len(),
{
    if deps.len() > 0 {
        let prefix = deps.drop_last();
        lemma_subscription_bounds(prefix, e);
        let rest = Seq::new(occurrences(deps.last(), e), |k: int| (deps.len() - 1) as usize);
        assert(subscription_list(deps, e) == subscription_list(prefix, e) + rest);
        assert forall|m: int| 0 <= m < subscription_list(deps, e).len() implies
            #[trigger] subscription_list(deps, e)[m] < deps.len() by {
            if m >= subscription_list(prefix, e).len() {
                assert(subscription_list(deps, e)[m] == rest[m - subscription_list(prefix, e).len()]);
            } else {
                assert(subscription_list(deps, e)[m] == subscription_list(prefix, e)[m]);
            }
        }
    }
}

/// An event occurs in a list of dependencies exactly when it is counted there.
pub proof fn lemma_occurrences_contains(deps: Seq<Event>, e: Event)
    ensures
        occurrences(deps, e) > 0 <==> deps.contains(e),
    decreases deps.len(),
{
    if deps.len() > 0 {
        let prefix = deps.drop_last();
        lemma_occurrences_contains(prefix, e);
        if prefix.contains(e) {
            let k = choose|k: int| 0 <= k < prefix.len() && prefix[k] == e;
            assert(deps[k] == e);
        }
        if deps.contains(e) && deps.last() != e {
            let k = choose|k: int| 0 <= k < deps.len() && deps[k] == e;
            assert(prefix[k] == e);
        }
    }
}

/// A handler runs on an event exactly when the event is among the
/// dependencies it was added with.
pub proof fn lemma_runs_iff_depends(deps: Seq<Seq<Event>>, e: Event, j: usize)
    requires
        deps.len() <= usize::MAX,
    ensures
        subscription_list(deps, e).contains(j) <==> (j < deps.len() && deps[j as int].contains(e)),
    decreases deps.len(),
{
    if deps.len() > 0 {
        let prefix = deps.drop_last();
        let last = (deps.len() - 1) as usize;
        let rest = Seq::new(occurrences(deps.last(), e), |k: int| last);
        lemma_runs_iff_depends(prefix, e, j);
        lemma_occurrences_contains(deps.last(), e);
        let whole = subscription_list(deps, e);
        let front = subscription_list(prefix, e);
        assert(whole == front + rest);
        if whole.contains(j) {
            let m = choose|m: int| 0 <= m < whole.len() && whole[m] == j;
            if m < front.len() {
                assert(front[m] == j);
                assert(deps[j as int] == prefix[j as int]);
            } else {
                assert(rest[m - front.len()] == j);
            }
        }
        if j < deps.len() && deps[j as int].contains(e) {
            if j == last {
                assert(whole[front.len() as int] == j);
            } else {
                assert(prefix[j as int] == deps[j as int]);
                let m = choose|m: int| 0 <= m < front.len() && front[m] == j;
                assert(whole[m] == j);
            }
        }
    }
}

/// Handlers run in the order in which they were added.
pub proof fn lemma_runs_in_order(deps: Seq<Seq<Event>>, e: Event)
    requires
        deps.len() <= usize::MAX,
    ensures
        forall|a: int, b: int|
            0 <= a <= b < subscription_list(deps, e).len() ==> subscription_list(deps, e)[a]
                <= subscription_list(deps, e)[b],
    decreases deps.len(),
{
    if deps.len() > 0 {
        let prefix = deps.drop_last();
        let last = (deps.len() - 1) as usize;
        let rest = Seq::new(occurrences(deps.last(), e), |k: int| last);
        lemma_runs_in_order(prefix, e);
        lemma_subscription_bounds(prefix, e);
        let whole = subscription_list(deps, e);
        let front = subscription_list(prefix, e);
        assert(whole == front + rest);
        assert forall|a: int, b: int| 0 <= a <= b < whole.len() implies whole[a] <= whole[b] by {
            if b >= front.len() {
                assert(whole[b] == last);
                if a < front.len() {
                    assert(whole[a] == front[a]);
                } else {
                    assert(whole[a] == last);
                }
            } else {
                assert(whole[a] == front[a]);
                assert(whole[b] == front[b]);
            }
        }
    }
}

/// The handlers of the program and, for each event, the handlers that run
/// when it happens.
pub struct Handlers<H> {
    _handlers: Vec<H>,
    handlers: [Vec<usize>; Event::COUNT],
    deps: Ghost<Seq<Seq<Event>>>,
}

impl<H> Handlers<H> {
    /// The handlers, in the order in which they were added.
    pub closed spec fn registered(&self) -> Seq<H> {
        self._handlers@
    }

    /// The dependencies that each handler was added with.
    pub closed spec fn dependencies(&self) -> Seq<Seq<Event>> {
        self.deps@
    }

    /// The handlers that run on `e`, in the order in which they were added.
    pub open spec fn handlers_for(&self, e: Event) -> Seq<H> {
        subscription_list(self.dependencies(), e).map_values(|i: usize| self.registered()[i as int])
    }

    /// The lists of positions match the dependencies of the handlers.
    pub closed spec fn wf(&self) -> bool {
        &&& self._handlers@.len() == self.deps@.len()
        &&& forall|e: Event|
            #![trigger subscription_list(self.deps@, e)]
            self.handlers@[e.spec_index() as int]@ == subscription_list(self.deps@, e)
    }

    /// A registry with no handlers.
    pub fn new() -> (s: Self)
        ensures
            s.wf(),
            s.registered() == Seq::<H>::empty(),
            s.dependencies() == Seq::<Seq<Event>>::empty(),
            forall|e: Event| #[trigger] s.handlers_for(e) == Seq::<H>::empty(),
    {
        let s = Handlers {
            _handlers: Vec::new(),
            handlers: [Vec::new(), Vec::new(), Vec::new()],
            deps: Ghost(Seq::empty()),
        };
        assert forall|e: Event| #![trigger subscription_list(s.deps@, e)]
            s.handlers@[e.spec_index() as int]@ == subscription_list(s.deps@, e) by {
            assert(s.handlers@[e.spec_index() as int]@ =~= subscription_list(s.deps@, e));
        }
        assert forall|e: Event| #[trigger] s.handlers_for(e) == Seq::<H>::empty() by {
            assert(s.handlers_for(e) =~= Seq::<H>::empty());
        }
        s
    }

    /// What a registry hands out for an event after a handler was added: what
    /// it handed out before, then the new handler once for each time that the
    /// event occurs among its dependencies.
    pub proof fn lemma_add_then_get(before: &Self, after: &Self, h: H, deps: Seq<Event>, e: Event)
        requires
            before.wf(),
            before.registered().len() < usize::MAX,
            after.registered() == before.registered().push(h),
            after.dependencies() == before.dependencies().push(deps),
        ensures
            after.handlers_for(e) == before.handlers_for(e) + Seq::new(
                occurrences(deps, e),
                |k: int| h,
            ),
    {
        lemma_subscription_bounds(before.deps@, e);
        assert(after.deps@.drop_last() =~= before.deps@);
        let front = subscription_list(before.deps@, e);
        let n = before.deps@.len();
        let rest = Seq::new(occurrences(deps, e), |k: int| n as usize);
        assert(subscription_list(after.deps@, e) == front + rest);
        assert forall|m: int| 0 <= m < front.len() implies after.registered()[front[m] as int]
            == before.registered()[front[m] as int] by {
            assert(front[m] < n);
        }
        assert(after.handlers_for(e) =~= before.handlers_for(e) + Seq::new(
            occurrences(deps, e),
            |k: int| h,
        ));
    }

    /// The number of handlers added so far.
    pub fn len(&self) -> (n: usize)
        ensures
            n == self.registered().len(),
    {
        self._handlers.len()
    }

    /// The handlers that run on `event`, in the order in which they were added.
    pub fn get_handlers(&self, event: Event) -> (hs: Vec<&H>)
        requires
            self.wf(),
        ensures
            hs@.len() == self.handlers_for(event).len(),
            forall|k: int| 0 <= k < hs@.len() ==> *(#[trigger] hs@[k]) == self.handlers_for(event)[k],
    {
        proof {
            lemma_subscription_bounds(self.deps@, event);
        }
        let list = &self.handlers[event.index()];
        assert forall|m: int| 0 <= m < list@.len() implies #[trigger] list@[m] < self._handlers@.len() by {
            assert(list@[m] == subscription_list(self.deps@, event)[m]);
        }
        let mut hs: Vec<&H> = Vec::new();
        let mut k: usize = 0;
        while k < list.len()
            invariant
                self.wf(),
                list@ == subscription_list(self.dependencies(), event),
                forall|m: int| 0 <= m < list@.len() ==> #[trigger] list@[m] < self._handlers@.len(),
                k <= list@.len(),
                hs@.len() == k,
                forall|m: int| 0 <= m < k ==> *(#[trigger] hs@[m]) == self.handlers_for(event)[m],
            decreases list@.len() - k,
        {
            hs.push(&self._handlers[list[k]]);
            k += 1;
        }
        hs
    }

    /// Adds handler `h`, which runs on each event of `deps`.
    pub fn add_handler(&mut self, h: H, deps: &[Event])
        requires
            old(self).wf(),
            old(self).registered().len() < usize::MAX,
        ensures
            final(self).wf(),
            final(self).registered() == old(self).registered().push(h),
            final(self).dependencies() == old(self).dependencies().push(deps@),
    {
        let idx = self._handlers.len();
        let ghost old_lists = self.handlers@;
        let ghost new_deps = self.deps@.push(deps@);
        let mut j: usize = 0;
        while j < deps.len()
            invariant
                j <= deps@.len(),
                idx == self._handlers@.len(),
                self._handlers@ == old(self)._handlers@,
                self.deps@ == old(self).deps@,
                new_deps == self.deps@.push(deps@),
                forall|e: Event|
                    #![trigger self.handlers@[e.spec_index() as int]]
                    self.handlers@[e.spec_index() as int]@ == old_lists[e.spec_index() as int]@
                        + Seq::new(occurrences(deps@.take(j as int), e), |k: int| idx),
            decreases deps@.len() - j,
        {
            let e = deps[j];
            let ghost before = self.handlers@;
            self.handlers[e.index()].push(idx);
            proof {
                assert(deps@.take(j + 1).drop_last() =~= deps@.take(j as int));
                assert forall|f: Event| #![trigger self.handlers@[f.spec_index() as int]]
                    self.handlers@[f.spec_index() as int]@ == old_lists[f.spec_index() as int]@
                        + Seq::new(occurrences(deps@.take(j + 1), f), |k: int| idx) by {
                    if f == e {
                        assert(self.handlers@[f.spec_index() as int]@ =~= old_lists[f.spec_index() as int]@
                            + Seq::new(occurrences(deps@.take(j + 1), f), |k: int| idx));
                    } else {
                        assert(f.spec_index() != e.spec_index());
                        assert(self.handlers@[f.spec_index() as int] == before[f.spec_index() as int]);
                    }
                }
            }
            j += 1;
        }
        self._handlers.push(h);
        self.deps = Ghost(new_deps);
        proof {
            assert(deps@.take(deps@.len() as int) =~= deps@);
            assert(new_deps.drop_last() =~= old(self).deps@);
            assert forall|e: Event| #![trigger subscription_list(self.deps@, e)]
                self.handlers@[e.spec_index() as int]@ == subscription_list(self.deps@, e) by {
                assert(subscription_list(old(self).deps@, e) == old_lists[e.spec_index() as int]@);
                assert(self.handlers@[e.spec_index() as int]@ =~= subscription_list(self.deps@, e));
            }
        }
    }
}

impl<H> Default for Handlers<H> {
    /// A registry with no handlers.
    fn default() -> (s: Self)
        ensures
            s.wf(),
            s.registered() == Seq::<H>::empty(),
            s.dependencies() == Seq::<Seq<Event>>::empty(),
    {
        Self::new()
    }
}

} // verus!

