//! The laws of the scheduling protocol.
//!
//! The batch machine in `batch` says what happens at each single event;
//! the proof functions here say what whole runs guarantee: the emergent
//! ascending order when the timer facility resolves distinct delays, one
//! callback per input position when every timer elapses, silence after a
//! cancellation request, and that a settled batch never fires again.

use vstd::prelude::*;

use crate::batch::Event;
use crate::batch::Model;
use crate::batch::Outcome;

verus! {

/// Each element is strictly smaller than every later one.
pub open spec fn strictly_ascending(s: Seq<u64>) -> bool {
    forall|j: int, k: int| 0 <= j < k < s.len() ==> s[j] < s[k]
}

/// No two elements are equal.
pub open spec fn pairwise_distinct(s: Seq<u64>) -> bool {
    forall|j: int, k: int| 0 <= j < k < s.len() ==> s[j] != s[k]
}

/// The elapse events of the tasks at the given input positions, in that
/// order. This is how a run of the timer facility looks to the batch: one
/// elapse per launched task, in whatever order the timers resolved.
pub open spec fn elapse_schedule(ord: Seq<usize>) -> Seq<Event> {
    Seq::new(ord.len(), |k: int| Event::Elapsed(ord[k]))
}

/// The input values at the given positions, in that order.
pub open spec fn values_at(values: Seq<u64>, ord: Seq<usize>) -> Seq<u64> {
    Seq::new(ord.len(), |k: int| values[ord[k] as int])
}

/// The input position `i` occurs somewhere in the elapse order.
pub open spec fn ord_has(ord: Seq<usize>, i: int) -> bool {
    exists|k: int| 0 <= k < ord.len() && ord[k] as int == i
}

/// The firing record after the tasks at the positions in `ord` have
/// elapsed: a position has fired exactly when it had already fired or its
/// timer is among those that elapsed.
pub open spec fn fired_after(fired: Seq<bool>, ord: Seq<usize>) -> Seq<bool> {
    Seq::new(fired.len(), |i: int| fired[i] || ord_has(ord, i))
}

/// `ord` lists every input position of a batch of `n` tasks exactly once:
/// it is a complete, duplicate-free elapse order.
pub open spec fn lists_each_position_once(ord: Seq<usize>, n: nat) -> bool {
    &&& ord.len() == n
    &&& forall|k: int| 0 <= k < ord.len() ==> (ord[k] as nat) < n
    &&& forall|j: int, k: int| 0 <= j < k < ord.len() ==> ord[j] != ord[k]
    &&& forall|i: int| 0 <= i < n ==> #[trigger] ord_has(ord, i)
}

/// The elapse order respects the delays: a task whose timer elapses
/// earlier never carries a larger value. This is the timer facility's
/// contribution to sleep sort — a shorter delay resolves no later than a
/// longer one.
pub open spec fn delay_ordered(values: Seq<u64>, ord: Seq<usize>) -> bool {
    forall|j: int, k: int|
        0 <= j < k < ord.len() ==> values[ord[j] as int] <= values[ord[k] as int]
}

/// What a run of timer elapses alone does to a live batch: every elapsed
/// task that had not fired fires exactly once, with its own value, in the
/// elapse order, and nothing else changes.
pub proof fn lemma_elapse_run(m: Model, ord: Seq<usize>)
    requires
        !m.cancelled,
        forall|k: int| 0 <= k < ord.len() ==> (ord[k] as int) < m.values.len(),
        forall|k: int| 0 <= k < ord.len() ==> (ord[k] as int) < m.fired.len(),
        forall|k: int| 0 <= k < ord.len() ==> !m.fired[ord[k] as int],
        forall|j: int, k: int| 0 <= j < k < ord.len() ==> ord[j] != ord[k],
    ensures
        m.run(elapse_schedule(ord)).1 == values_at(m.values, ord),
        m.run(elapse_schedule(ord)).0 == (Model {
            values: m.values,
            fired: fired_after(m.fired, ord),
            cancelled: false,
        }),
    decreases ord.len(),
{
    let es = elapse_schedule(ord);
    if ord.len() == 0 {
        assert(m.run(es).1 =~= values_at(m.values, ord));
        assert(forall|i: int| !(#[trigger] ord_has(ord, i)));
        assert(fired_after(m.fired, ord) =~= m.fired);
    } else {
        let i0 = ord[0];
        assert(es[0] == Event::Elapsed(i0));
        assert(!m.fired[i0 as int]);
        let m1 = m.step(es[0]).0;
        let ord1 = ord.drop_first();
        assert(es.drop_first() =~= elapse_schedule(ord1));
        assert(m1.values == m.values);
        assert(m1.fired == m.fired.update(i0 as int, true));
        assert(!m1.cancelled);
        assert(m1.fired.len() == m.fired.len());
        assert forall|k: int| 0 <= k < ord1.len() implies !m1.fired[ord1[k] as int] by {
            assert(ord1[k] == ord[k + 1]);
            assert(ord[k + 1] != ord[0]);
        }
        lemma_elapse_run(m1, ord1);
        let rest = m1.run(elapse_schedule(ord1));
        assert(m.run(es).0 == rest.0);
        assert(m.run(es).1 =~= seq![m.values[i0 as int]] + rest.1);
        assert(values_at(m1.values, ord1) =~= values_at(m.values, ord1));
        assert(m.run(es).1 =~= values_at(m.values, ord));
        assert forall|i: int|
            0 <= i < m.fired.len() implies fired_after(m1.fired, ord1)[i] == fired_after(
            m.fired,
            ord,
        )[i] by {
            assert(fired_after(m1.fired, ord1)[i] == (m1.fired[i] || ord_has(ord1, i)));
            assert(fired_after(m.fired, ord)[i] == (m.fired[i] || ord_has(ord, i)));
            if ord_has(ord1, i) {
                let k = choose|k: int| 0 <= k < ord1.len() && ord1[k] as int == i;
                assert(ord[k + 1] as int == i);
                assert(ord_has(ord, i));
            }
            if i == i0 as int {
                assert(m1.fired[i]);
                assert(ord[0] as int == i);
                assert(ord_has(ord, i));
            }
            if ord_has(ord, i) && i != i0 as int {
                let k = choose|k: int| 0 <= k < ord.len() && ord[k] as int == i;
                assert(k != 0);
                assert(ord1[k - 1] as int == i);
                assert(ord_has(ord1, i));
            }
            if !ord_has(ord, i) {
                assert(!ord_has(ord1, i));
                assert(m1.fired[i] == m.fired[i]);
            }
        }
        assert(fired_after(m1.fired, ord1) =~= fired_after(m.fired, ord));
    }
}

/// Order law: when the timer facility delivers every task's elapse exactly
/// once, in an order that respects the delays, and the input values are
/// pairwise distinct, the callback observes the values in strictly
/// ascending numeric order — one invocation per value — and the batch
/// resolves as completed. The ascending order is emergent: nothing sorts;
/// a shorter delay simply fires first.
pub proof fn lemma_order_property(values: Seq<u64>, ord: Seq<usize>)
    requires
        pairwise_distinct(values),
        lists_each_position_once(ord, values.len()),
        delay_ordered(values, ord),
    ensures
        Model::init(values).run(elapse_schedule(ord)).1.len() == values.len(),
        strictly_ascending(Model::init(values).run(elapse_schedule(ord)).1),
        forall|i: int|
            0 <= i < values.len() ==> Model::init(values).run(elapse_schedule(ord)).1.contains(
                values[i],
            ),
        Model::init(values).run(elapse_schedule(ord)).0.outcome() == Some(Outcome::Completed),
{
    let m = Model::init(values);
    lemma_elapse_run(m, ord);
    let out = m.run(elapse_schedule(ord)).1;
    assert(out == values_at(values, ord));
    assert forall|j: int, k: int| 0 <= j < k < out.len() implies out[j] < out[k] by {
        let a = ord[j] as int;
        let b = ord[k] as int;
        assert(values[a] <= values[b]);
        assert(ord[j] != ord[k]);
        if a < b {
            assert(values[a] != values[b]);
        } else {
            assert(values[b] != values[a]);
        }
    }
    assert forall|i: int| 0 <= i < values.len() implies out.contains(values[i]) by {
        assert(ord_has(ord, i));
        let k = choose|k: int| 0 <= k < ord.len() && ord[k] as int == i;
        assert(out[k] == values[i]);
    }
    let end = m.run(elapse_schedule(ord)).0;
    assert forall|i: int| 0 <= i < end.fired.len() implies end.fired[i] by {
        assert(end.fired[i] == (m.fired[i] || ord_has(ord, i)));
        assert(!m.fired[i]);
        assert(ord_has(ord, i));
    }
}

/// Completeness law: whatever order the timers elapse in, if each task's
/// timer elapses exactly once and no cancellation is requested, exactly one
/// callback fires per input position — the invocation sequence is the input
/// values reordered by the elapse order, so duplicates fire once per
/// occurrence — and the batch resolves as completed.
pub proof fn lemma_completeness(values: Seq<u64>, ord: Seq<usize>)
    requires
        lists_each_position_once(ord, values.len()),
    ensures
        Model::init(values).run(elapse_schedule(ord)).1 == values_at(values, ord),
        Model::init(values).run(elapse_schedule(ord)).1.len() == values.len(),
        Model::init(values).run(elapse_schedule(ord)).0.outcome() == Some(Outcome::Completed),
{
    let m = Model::init(values);
    lemma_elapse_run(m, ord);
    let end = m.run(elapse_schedule(ord)).0;
    assert forall|i: int| 0 <= i < end.fired.len() implies end.fired[i] by {
        assert(end.fired[i] == (m.fired[i] || ord_has(ord, i)));
        assert(!m.fired[i]);
        assert(ord_has(ord, i));
    }
}

/// Idempotence law: once a batch has settled — completed or cancelled —
/// no further event fires a callback or changes the firing record. In
/// particular, observing the composite operation's result again never
/// re-invokes the callback, and a cancelled batch stays cancelled.
pub proof fn lemma_observation_idempotent(m: Model, es: Seq<Event>)
    requires
        m.outcome() is Some,
    ensures
        m.run(es).1 == Seq::<u64>::empty(),
        m.run(es).0.values == m.values,
        m.run(es).0.fired == m.fired,
        m.cancelled ==> m.run(es).0.cancelled,
    decreases es.len(),
{
    if es.len() == 0 {
        assert(m.run(es).1 =~= Seq::<u64>::empty());
    } else {
        let e = es[0];
        let stepped = m.step(e);
        if !m.cancelled {
            assert(m.all_fired());
            match e {
                Event::Elapsed(i) => {
                    if i < m.fired.len() {
                        assert(m.fired[i as int]);
                    }
                }
                Event::Cancel => {
                }
            }
        }
        assert(stepped.1 is None);
        assert(stepped.0.values == m.values);
        assert(stepped.0.fired == m.fired);
        assert(stepped.0.outcome() is Some);
        lemma_observation_idempotent(stepped.0, es.drop_first());
        assert(m.run(es).1 =~= Seq::<u64>::empty());
    }
}

/// Cancellation law: a cancellation request that arrives before any timer
/// has elapsed resolves the batch to the cancelled outcome, and no callback
/// ever fires, whatever elapses or further requests follow.
pub proof fn lemma_cancellation(values: Seq<u64>, es: Seq<Event>)
    requires
        es.len() > 0,
        es[0] == Event::Cancel,
    ensures
        Model::init(values).run(es).1 == Seq::<u64>::empty(),
        Model::init(values).run(es).0.outcome() == Some(Outcome::Cancelled),
{
    let m = Model::init(values);
    let m1 = m.step(es[0]).0;
    assert(m1.cancelled);
    lemma_observation_idempotent(m1, es.drop_first());
    assert(m.run(es).1 =~= Seq::<u64>::empty());
}

} // verus!
