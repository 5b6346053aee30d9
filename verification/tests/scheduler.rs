// The batch machine driven through concrete runs: the elapse orders a real
// timer facility would produce, cancellation, and the edge cases.

use sleep_sort::Batch;
use sleep_sort::Event;
use sleep_sort::Outcome;

// The classic run: distinct values, timers elapse in delay order, and the
// callback sees the values ascending.
#[test]
fn it_works() {
    let data: Vec<u64> = vec![3, 1, 6, 4, 2, 5];
    let sorted: Vec<u64> = vec![1, 2, 3, 4, 5, 6];
    let mut batch = Batch::new(data);
    // Timers with shorter delays elapse first: positions ordered by value.
    let order: Vec<Event> = vec![
        Event::Elapsed(1),
        Event::Elapsed(4),
        Event::Elapsed(0),
        Event::Elapsed(3),
        Event::Elapsed(5),
        Event::Elapsed(2),
    ];
    let observed = batch.run_events(&order);
    assert_eq!(observed, sorted);
    assert_eq!(batch.outcome(), Some(Outcome::Completed));
    assert_eq!(batch.fired_count(), 6);
}

// Cancellation requested before the shortest delay elapses: the batch
// resolves cancelled and no callback fires, whatever elapses follow.
#[test]
fn cancellable() {
    let data: Vec<u64> = vec![3, 1, 6, 4, 2, 5];
    let mut batch = Batch::new(data);
    let events: Vec<Event> = vec![
        Event::Cancel,
        Event::Elapsed(1),
        Event::Elapsed(4),
        Event::Elapsed(0),
        Event::Elapsed(3),
        Event::Elapsed(5),
        Event::Elapsed(2),
    ];
    let observed = batch.run_events(&events);
    assert!(observed.is_empty());
    assert_eq!(batch.outcome(), Some(Outcome::Cancelled));
    assert_eq!(batch.fired_count(), 0);
}

// An empty input completes immediately, with zero invocations.
#[test]
fn empty_input_completes_immediately() {
    let mut batch = Batch::new(Vec::new());
    assert_eq!(batch.task_count(), 0);
    assert_eq!(batch.outcome(), Some(Outcome::Completed));
    let observed = batch.run_events(&Vec::new());
    assert!(observed.is_empty());
    assert_eq!(batch.outcome(), Some(Outcome::Completed));
}

// Equal values race: order among them is unspecified, but each of the
// three zero-delay tasks fires exactly once, in whatever order.
#[test]
fn equal_values_all_fire_once() {
    let data: Vec<u64> = vec![0, 0, 0];
    let mut batch = Batch::new(data);
    let one_race: Vec<Event> = vec![Event::Elapsed(2), Event::Elapsed(0), Event::Elapsed(1)];
    let observed = batch.run_events(&one_race);
    assert_eq!(observed, vec![0, 0, 0]);
    assert_eq!(batch.outcome(), Some(Outcome::Completed));

    let data2: Vec<u64> = vec![0, 0, 0];
    let mut batch2 = Batch::new(data2);
    let another_race: Vec<Event> = vec![Event::Elapsed(1), Event::Elapsed(2), Event::Elapsed(0)];
    let observed2 = batch2.run_events(&another_race);
    assert_eq!(observed2.len(), 3);
    assert_eq!(batch2.outcome(), Some(Outcome::Completed));
}

// Duplicate values each fire once per occurrence.
#[test]
fn duplicate_values_fire_per_occurrence() {
    let data: Vec<u64> = vec![4, 7, 4];
    let mut batch = Batch::new(data);
    let order: Vec<Event> = vec![Event::Elapsed(0), Event::Elapsed(2), Event::Elapsed(1)];
    let observed = batch.run_events(&order);
    assert_eq!(observed, vec![4, 4, 7]);
    assert_eq!(batch.outcome(), Some(Outcome::Completed));
}

// A single task's timer elapsing twice fires its callback only once.
#[test]
fn repeated_elapse_fires_once() {
    let data: Vec<u64> = vec![3, 1];
    let mut batch = Batch::new(data);
    assert_eq!(batch.on_elapsed(0), Some(3));
    assert_eq!(batch.on_elapsed(0), None);
    assert_eq!(batch.fired_count(), 1);
    assert_eq!(batch.outcome(), None);
}

// An elapse for a position the batch never had is ignored.
#[test]
fn out_of_range_elapse_is_ignored() {
    let data: Vec<u64> = vec![3, 1];
    let mut batch = Batch::new(data);
    assert_eq!(batch.on_elapsed(7), None);
    assert_eq!(batch.fired_count(), 0);
    assert_eq!(batch.outcome(), None);
}

// Cancellation midway: callbacks already fired stay fired, nothing more
// fires, and the batch resolves cancelled.
#[test]
fn cancel_midway_keeps_earlier_firings() {
    let data: Vec<u64> = vec![3, 1, 6];
    let mut batch = Batch::new(data);
    assert_eq!(batch.on_elapsed(1), Some(1));
    assert!(!batch.is_cancelled());
    batch.cancel();
    assert!(batch.is_cancelled());
    assert_eq!(batch.on_elapsed(0), None);
    assert_eq!(batch.on_elapsed(2), None);
    assert_eq!(batch.fired_count(), 1);
    assert_eq!(batch.outcome(), Some(Outcome::Cancelled));
}

// Observing the outcome is idempotent: once the batch has settled, looking
// again changes nothing, and late events fire no callback.
#[test]
fn observation_is_idempotent() {
    let data: Vec<u64> = vec![2, 5];
    let mut batch = Batch::new(data);
    let order: Vec<Event> = vec![Event::Elapsed(0), Event::Elapsed(1)];
    let observed = batch.run_events(&order);
    assert_eq!(observed, vec![2, 5]);
    let first_look = batch.outcome();
    let second_look = batch.outcome();
    assert_eq!(first_look, Some(Outcome::Completed));
    assert_eq!(first_look, second_look);
    let late: Vec<Event> = vec![Event::Elapsed(0), Event::Elapsed(1)];
    let nothing = batch.run_events(&late);
    assert!(nothing.is_empty());
    assert_eq!(batch.fired_count(), 2);
    assert_eq!(batch.outcome(), Some(Outcome::Completed));
}

// Requesting cancellation twice is no different from once.
#[test]
fn cancel_twice_is_harmless() {
    let data: Vec<u64> = vec![1];
    let mut batch = Batch::new(data);
    batch.cancel();
    batch.cancel();
    assert_eq!(batch.outcome(), Some(Outcome::Cancelled));
    assert_eq!(batch.fired_count(), 0);
}

// The order law on another concrete input: well-separated distinct values
// observed strictly ascending when timers resolve in delay order.
#[test]
fn distinct_values_observed_ascending() {
    let data: Vec<u64> = vec![9, 2, 5];
    let mut batch = Batch::new(data);
    let order: Vec<Event> = vec![Event::Elapsed(1), Event::Elapsed(2), Event::Elapsed(0)];
    let observed = batch.run_events(&order);
    assert_eq!(observed, vec![2, 5, 9]);
    let mut ascending = observed.clone();
    ascending.sort();
    assert_eq!(observed, ascending);
    assert_eq!(batch.outcome(), Some(Outcome::Completed));
}
