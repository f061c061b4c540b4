//! Deferred reclamation.
//!
//! A [`Quiescence`] counter tells whether any worker runs critical code. Each
//! worker owns a [`GarbageQueue`] of values whose destruction is deferred:
//! they are released (handed back, oldest first, to be dropped) only while the
//! counter reads zero.
use vstd::prelude::*;

verus! {

/// The process-wide count of open critical sections.
pub struct Quiescence {
    active: usize,
}

impl View for Quiescence {
    type V = nat;

    closed spec fn view(&self) -> nat {
        self.active as nat
    }
}

impl Quiescence {
    /// A counter with no open critical section.
    pub fn new() -> (r: Quiescence)
        ensures
            r@ == 0,
    {
        Quiescence { active: 0 }
    }

    /// Whether no critical section is open.
    pub fn is_quiescent(&self) -> (r: bool)
        ensures
            r == (self@ == 0),
    {
        self.active == 0
    }

    /// Opens a critical section.
    pub fn enter(&mut self)
        requires
            old(self)@ < usize::MAX,
        ensures
            final(self)@ == old(self)@ + 1,
    {
        self.active = self.active + 1;
    }

    /// Closes a critical section.
    pub fn leave(&mut self)
        requires
            old(self)@ > 0,
        ensures
            final(self)@ == old(self)@ - 1,
    {
        self.active = self.active - 1;
    }
}

/// Runs `exec` as critical code: `exec` sees the counter raised by one, so
/// that no deferred value is released while it runs, and the counter is
/// restored afterwards.
pub fn critical<F, T>(q: &mut Quiescence, exec: F) -> (r: T)
    where
        F: FnOnce(&Quiescence) -> T,
    requires
        old(q)@ < usize::MAX,
        forall|g: Quiescence| g@ == old(q)@ + 1 ==> exec.requires((&g,)),
    ensures
        exists|g: Quiescence| g@ == old(q)@ + 1 && #[trigger] exec.ensures((&g,), r),
        final(q)@ == old(q)@,
{
    q.enter();
    let r = exec(&*q);
    q.leave();
    r
}

/// What one release attempt does to a worker's pending values: with no open
/// critical section all of them are released in order (first component) and
/// none remains (second); otherwise nothing is released.
pub open spec fn release<T>(active: nat, pending: Seq<T>) -> (Seq<T>, Seq<T>) {
    if active == 0 {
        (pending, Seq::empty())
    } else {
        (Seq::empty(), pending)
    }
}

/// A worker's own queue of values whose destruction is deferred.
pub struct GarbageQueue<T> {
    items: std::collections::VecDeque<T>,
}

impl<T> View for GarbageQueue<T> {
    type V = Seq<T>;

    closed spec fn view(&self) -> Seq<T> {
        self.items@
    }
}

impl<T> GarbageQueue<T> {
    /// An empty queue.
    pub fn new() -> (r: GarbageQueue<T>)
        ensures
            r@ == Seq::<T>::empty(),
    {
        GarbageQueue { items: std::collections::VecDeque::with_capacity(16) }
    }

    /// The number of pending values.
    pub fn len(&self) -> (r: usize)
        ensures
            r == self@.len(),
    {
        self.items.len()
    }

    /// Ends the worker's use of the queue. With no critical section open,
    /// every pending value is released, oldest first; otherwise the queue
    /// comes back unchanged, to be offered again once the counter has fallen
    /// to zero (a worker that keeps waiting may starve while others keep
    /// entering critical code).
    pub fn finish(self, q: &Quiescence) -> (r: Result<Vec<T>, GarbageQueue<T>>)
        ensures
            r is Ok <==> q@ == 0,
            r is Ok ==> r->Ok_0@ == self@,
            r is Err ==> r->Err_0@ == self@,
    {
        if q.is_quiescent() {
            let mut queue = self;
            Ok(queue.delete())
        } else {
            Err(self)
        }
    }

    /// Appends a value behind those already pending.
    fn add(&mut self, item: T)
        ensures
            final(self)@ == old(self)@.push(item),
    {
        self.items.push_back(item);
    }

    /// Takes every pending value out, oldest first.
    fn delete(&mut self) -> (r: Vec<T>)
        ensures
            r@ == old(self)@,
            final(self)@ == Seq::<T>::empty(),
    {
        let mut out: Vec<T> = Vec::new();
        while self.items.len() > 0
            invariant
                out@ + self.items@ == old(self)@,
            decreases self.items@.len(),
        {
            let item = self.items.pop_front().unwrap();
            out.push(item);
            assert(out@ + self.items@ =~= old(self)@);
        }
        assert(out@ =~= old(self)@);
        out
    }
}

/// Schedules `item` for destruction on the calling worker's queue. The value
/// is queued before the counter is consulted; then, if no critical section is
/// open, the whole queue is released, oldest first, and handed back to be
/// dropped. The caller owes that no hazard slot can still hand out `item`.
pub fn later_drop<T>(q: &Quiescence, queue: &mut GarbageQueue<T>, item: T) -> (released: Vec<T>)
    ensures
        (released@, final(queue)@) == release(q@, old(queue)@.push(item)),
{
    queue.add(item);
    if q.is_quiescent() {
        queue.delete()
    } else {
        Vec::new()
    }
}

/// Releases the calling worker's queue, oldest first, if no critical section
/// is open; otherwise fails and leaves the queue as it was.
pub fn try_delete_local<T>(q: &Quiescence, queue: &mut GarbageQueue<T>) -> (r: Result<Vec<T>, ()>)
    ensures
        r is Ok <==> q@ == 0,
        r is Ok ==> (r->Ok_0@, final(queue)@) == release(q@, old(queue)@),
        r is Err ==> final(queue)@ == old(queue)@,
{
    if q.is_quiescent() {
        Ok(queue.delete())
    } else {
        Err(())
    }
}

/// One event that touches a worker's queue or the shared counter: a critical
/// section opens or closes (on any worker), the worker schedules a value, or
/// it tries to release its queue.
pub enum Step<T> {
    Enter,
    Leave,
    Schedule(T),
    TryDelete,
}

/// A worker's view of the system: the counter, its pending values, and the
/// values released so far, in order.
pub type Observed<T> = (nat, Seq<T>, Seq<T>);

/// The effect of one event, as `enter`, `leave`, `later_drop` and
/// `try_delete_local` have it.
pub open spec fn step<T>(s: Observed<T>, e: Step<T>) -> Observed<T> {
    match e {
        Step::Enter => (s.0 + 1, s.1, s.2),
        Step::Leave => ((if s.0 > 0 { s.0 - 1 } else { 0int }) as nat, s.1, s.2),
        Step::Schedule(x) => {
            let out = release(s.0, s.1.push(x));
            (s.0, out.1, s.2 + out.0)
        },
        Step::TryDelete => {
            let out = release(s.0, s.1);
            (s.0, out.1, s.2 + out.0)
        },
    }
}

/// The effect of a sequence of events, in order.
pub open spec fn run<T>(s: Observed<T>, steps: Seq<Step<T>>) -> Observed<T>
    decreases steps.len(),
{
    if steps.len() == 0 {
        s
    } else {
        step(run(s, steps.drop_last()), steps.last())
    }
}

/// Sections opened minus sections closed by `steps`.
pub open spec fn balance<T>(steps: Seq<Step<T>>) -> int
    decreases steps.len(),
{
    if steps.len() == 0 {
        0
    } else {
        balance(steps.drop_last()) + match steps.last() {
            Step::Enter => 1int,
            Step::Leave => -1int,
            _ => 0int,
        }
    }
}

/// The values that `steps` schedules, in order.
pub open spec fn scheduled<T>(steps: Seq<Step<T>>) -> Seq<T>
    decreases steps.len(),
{
    if steps.len() == 0 {
        Seq::empty()
    } else {
        match steps.last() {
            Step::Schedule(x) => scheduled(steps.drop_last()).push(x),
            _ => scheduled(steps.drop_last()),
        }
    }
}

/// While one critical section stays open, nothing is released: for any
/// interleaving of other events in which no more sections are closed than
/// were opened (at every point), no scheduled value is handed out.
pub proof fn lemma_open_section_defers_release<T>(s: Observed<T>, steps: Seq<Step<T>>)
    requires
        s.0 > 0,
        forall|i: int| 0 <= i <= steps.len() ==> balance(#[trigger] steps.take(i)) >= 0,
    ensures
        run(s, steps).2 == s.2,
        run(s, steps).0 == s.0 + balance(steps),
    decreases steps.len(),
{
    if steps.len() > 0 {
        let p = steps.drop_last();
        assert forall|i: int| 0 <= i <= p.len() implies balance(#[trigger] p.take(i)) >= 0 by {
            assert(p.take(i) =~= steps.take(i));
        }
        lemma_open_section_defers_release(s, p);
        assert(steps.take(steps.len() as int) =~= steps);
        assert(run(s, steps).2 =~= s.2);
    }
}

/// Each scheduled value is released at most once: whatever the events, the
/// released values followed by those still pending are exactly the values
/// there were at the start followed by those scheduled, in order.
pub proof fn lemma_release_conserves<T>(s: Observed<T>, steps: Seq<Step<T>>)
    ensures
        run(s, steps).2 + run(s, steps).1 == s.2 + s.1 + scheduled(steps),
    decreases steps.len(),
{
    if steps.len() > 0 {
        lemma_release_conserves(s, steps.drop_last());
        let r = run(s, steps.drop_last());
        match steps.last() {
            Step::Schedule(x) => {
                assert(run(s, steps).2 + run(s, steps).1 =~= r.2 + r.1.push(x));
                assert(s.2 + s.1 + scheduled(steps) =~= (s.2 + s.1 + scheduled(steps.drop_last())).push(x));
            },
            Step::TryDelete => {
                assert(run(s, steps).2 + run(s, steps).1 =~= r.2 + r.1);
            },
            _ => {},
        }
    }
}

/// Each scheduled value is released exactly once: once the counter reads
/// zero, a release attempt empties the queue, and everything that was ever
/// pending or scheduled has then been released exactly once, in order.
pub proof fn lemma_release_exactly_once<T>(s: Observed<T>, steps: Seq<Step<T>>)
    requires
        run(s, steps).0 == 0,
    ensures
        run(s, steps.push(Step::TryDelete)).1 == Seq::<T>::empty(),
        run(s, steps.push(Step::TryDelete)).2 == s.2 + s.1 + scheduled(steps),
{
    let t = steps.push(Step::TryDelete);
    assert(t.drop_last() =~= steps);
    lemma_release_conserves(s, t);
    assert(scheduled(t) == scheduled(steps));
    assert(run(s, t).2 =~= run(s, t).2 + run(s, t).1);
}

} // verus!
