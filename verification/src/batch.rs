//! The batch state machine at the heart of the scheduler.
//!
//! A batch is built from one input sequence of unsigned values. For each
//! value a delayed task is launched by the host runtime; the only decisions
//! the protocol makes are taken here, one per event: when a task's timer
//! elapses, does its callback fire, and with which value? When cancellation
//! is requested, the whole batch stops firing. The `Model` type is the
//! mathematical form of that machine; `Batch` is its executable twin, and
//! every method is specified exactly by one `Model::step`.

use vstd::prelude::*;

verus! {

/// An event delivered to the batch by the host runtime: either the timer
/// of the task at a given input position elapsed, or cancellation of the
/// whole batch was requested.
#[derive(Clone, Copy, Debug, PartialEq, Eq, Structural)]
pub enum Event {
    Elapsed(usize),
    Cancel,
}

/// How a settled batch resolved: every task fired its callback, or the
/// batch was cancelled before that happened.
#[derive(Clone, Copy, Debug, PartialEq, Eq, Structural)]
pub enum Outcome {
    Completed,
    Cancelled,
}

/// The mathematical state of one batch: the input values, which positions
/// have fired their callback, and whether cancellation was requested.
#[verifier::ext_equal]
pub struct Model {
    pub values: Seq<u64>,
    pub fired: Seq<bool>,
    pub cancelled: bool,
}

impl Model {
    /// The state of a freshly constructed batch: one pending task per
    /// input value, nothing fired, no cancellation.
    pub open spec fn init(values: Seq<u64>) -> Model {
        Model { values, fired: Seq::new(values.len(), |i: int| false), cancelled: false }
    }

    /// Every task has fired its callback.
    pub open spec fn all_fired(self) -> bool {
        forall|i: int| 0 <= i < self.fired.len() ==> self.fired[i]
    }

    /// How the composite operation resolves in this state, if it does:
    /// a cancellation request wins (as the host's abort facility settles
    /// the composite the moment it is observed), otherwise the batch is
    /// complete once every task has fired, and pending until then.
    pub open spec fn outcome(self) -> Option<Outcome> {
        if self.cancelled {
            Some(Outcome::Cancelled)
        } else if self.all_fired() {
            Some(Outcome::Completed)
        } else {
            None
        }
    }

    /// The transition relation: the state after one event, and the value
    /// handed to the callback, if any fires. A timer elapse fires exactly
    /// when the batch is not cancelled, the position is a real input
    /// position, and that position has not fired before; cancellation
    /// merely sets the flag and never fires a callback.
    pub open spec fn step(self, e: Event) -> (Model, Option<u64>) {
        match e {
            Event::Cancel => (
                Model { values: self.values, fired: self.fired, cancelled: true },
                None,
            ),
            Event::Elapsed(i) => {
                if self.cancelled || i >= self.values.len() || i >= self.fired.len()
                    || self.fired[i as int] {
                    (self, None)
                } else {
                    (
                        Model {
                            values: self.values,
                            fired: self.fired.update(i as int, true),
                            cancelled: self.cancelled,
                        },
                        Some(self.values[i as int]),
                    )
                }
            }
        }
    }

    /// The whole run: the state after a sequence of events, together with
    /// the sequence of values handed to the callback, in firing order.
    pub open spec fn run(self, es: Seq<Event>) -> (Model, Seq<u64>)
        decreases es.len(),
    {
        if es.len() == 0 {
            (self, Seq::empty())
        } else {
            let first = self.step(es[0]);
            let rest = first.0.run(es.drop_first());
            let out = match first.1 {
                Some(v) => seq![v] + rest.1,
                None => rest.1,
            };
            (rest.0, out)
        }
    }
}

/// How many of the firing flags are set.
pub open spec fn count_true(s: Seq<bool>) -> nat
    decreases s.len(),
{
    if s.len() == 0 {
        0
    } else {
        count_true(s.drop_last()) + if s.last() { 1nat } else { 0nat }
    }
}

/// The executable batch. Its whole behaviour is given by `Model`: the view
/// of a fresh batch is `Model::init`, and each mutating method performs
/// exactly one `Model::step`.
pub struct Batch {
    values: Vec<u64>,
    fired: Vec<bool>,
    cancelled: bool,
}

impl View for Batch {
    type V = Model;

    closed spec fn view(&self) -> Model {
        Model { values: self.values@, fired: self.fired@, cancelled: self.cancelled }
    }
}

impl Batch {
    /// Construct the batch for one input sequence: one pending task per
    /// value, nothing fired, no cancellation requested.
    pub fn new(values: Vec<u64>) -> (b: Batch)
        ensures
            b@ == Model::init(values@),
    {
        let n = values.len();
        let mut fired: Vec<bool> = Vec::new();
        while fired.len() < n
            invariant
                fired@.len() <= n,
                forall|j: int| 0 <= j < fired@.len() ==> !fired@[j],
            decreases n - fired@.len(),
        {
            fired.push(false);
        }
        proof {
            assert(fired@ =~= Seq::new(values@.len(), |i: int| false));
        }
        Batch { values, fired, cancelled: false }
    }

    /// The number of tasks in the batch, which equals the number of input
    /// values.
    pub fn task_count(&self) -> (n: usize)
        ensures
            n == self@.values.len(),
    {
        self.values.len()
    }

    /// The number of tasks whose callback has fired so far.
    pub fn fired_count(&self) -> (n: usize)
        ensures
            n == count_true(self@.fired),
    {
        let mut c: usize = 0;
        let mut k: usize = 0;
        while k < self.fired.len()
            invariant
                k <= self.fired@.len(),
                c <= k,
                c == count_true(self.fired@.take(k as int)),
            decreases self.fired@.len() - k,
        {
            proof {
                assert(self.fired@.take(k + 1).drop_last() =~= self.fired@.take(k as int));
                assert(self.fired@.take(k + 1).last() == self.fired@[k as int]);
            }
            if self.fired[k] {
                c = c + 1;
            }
            k = k + 1;
        }
        proof {
            assert(self.fired@.take(k as int) =~= self.fired@);
        }
        c
    }

    /// The timer of the task at input position `i` elapsed: fire its
    /// callback value, unless the batch is cancelled, the position is out
    /// of range, or that task has already fired.
    pub fn on_elapsed(&mut self, i: usize) -> (r: Option<u64>)
        ensures
            final(self)@ == old(self)@.step(Event::Elapsed(i)).0,
            r == old(self)@.step(Event::Elapsed(i)).1,
    {
        if self.cancelled || i >= self.values.len() || i >= self.fired.len() || self.fired[i] {
            None
        } else {
            self.fired.set(i, true);
            Some(self.values[i])
        }
    }

    /// Cancellation of the whole batch was requested: no further callback
    /// fires, and tasks that already fired are not undone.
    pub fn cancel(&mut self)
        ensures
            final(self)@ == old(self)@.step(Event::Cancel).0,
    {
        self.cancelled = true;
    }

    /// Whether cancellation has been requested.
    pub fn is_cancelled(&self) -> (r: bool)
        ensures
            r == self@.cancelled,
    {
        self.cancelled
    }

    /// Observe how the composite operation resolves in the current state:
    /// `None` while tasks are still pending, otherwise the settled outcome.
    /// Observation never changes the batch, so observing repeatedly never
    /// re-fires a callback.
    pub fn outcome(&self) -> (r: Option<Outcome>)
        ensures
            r == self@.outcome(),
    {
        if self.cancelled {
            return Some(Outcome::Cancelled);
        }
        let mut k: usize = 0;
        while k < self.fired.len()
            invariant
                !self@.cancelled,
                k <= self.fired@.len(),
                forall|j: int| 0 <= j < k ==> self.fired@[j],
            decreases self.fired@.len() - k,
        {
            if !self.fired[k] {
                proof {
                    assert(!self@.fired[k as int]);
                }
                return None;
            }
            k = k + 1;
        }
        Some(Outcome::Completed)
    }

    /// Drive the batch through a whole sequence of events, collecting the
    /// values handed to the callback, in firing order. This is the loop the
    /// host runtime runs as timers elapse; its result is exactly
    /// `Model::run`.
    pub fn run_events(&mut self, events: &Vec<Event>) -> (fired: Vec<u64>)
        ensures
            final(self)@ == old(self)@.run(events@).0,
            fired@ == old(self)@.run(events@).1,
    {
        let ghost m0 = self@;
        let mut out: Vec<u64> = Vec::new();
        let mut k: usize = 0;
        proof {
            assert(events@.skip(0) =~= events@);
        }
        while k < events.len()
            invariant
                k <= events@.len(),
                m0.run(events@).0 == self@.run(events@.skip(k as int)).0,
                m0.run(events@).1 == out@ + self@.run(events@.skip(k as int)).1,
            decreases events@.len() - k,
        {
            proof {
                assert(events@.skip(k as int)[0] == events@[k as int]);
                assert(events@.skip(k as int).drop_first() =~= events@.skip(k as int + 1));
            }
            let ghost pre = self@;
            let ghost out_pre = out@;
            let e = events[k];
            match e {
                Event::Elapsed(i) => {
                    let r = self.on_elapsed(i);
                    if let Some(v) = r {
                        out.push(v);
                    }
                }
                Event::Cancel => {
                    self.cancel();
                }
            }
            proof {
                let suffix = events@.skip(k as int);
                let rest = self@.run(events@.skip(k as int + 1));
                assert(pre.run(suffix).0 == rest.0);
                match pre.step(events@[k as int]).1 {
                    Some(v) => {
                        assert(pre.run(suffix).1 == seq![v] + rest.1);
                        assert(out@ =~= out_pre.push(v));
                        assert(out_pre + (seq![v] + rest.1) =~= out@ + rest.1);
                    }
                    None => {
                        assert(pre.run(suffix).1 == rest.1);
                        assert(out@ == out_pre);
                    }
                }
            }
            k = k + 1;
        }
        proof {
            assert(events@.skip(k as int) =~= Seq::<Event>::empty());
            assert(m0.run(events@).1 =~= out@);
        }
        out
    }
}

} // verus!
