use std::cell::Cell;
use std::rc::Rc;

use waitfree::{
    CasDescriptor, ContentionMeasure, CounterContentionMeasure, NormalisedLockFree, OperationState,
    Proposal, WaitFreeSimulator,
};

/// A shared counter whose only operation adds one.
struct Counter {
    value: Rc<Cell<u64>>,
}

/// Compare-and-swap of the counter from `expected` to `expected + 1`.
struct Increment {
    value: Rc<Cell<u64>>,
    expected: u64,
}

impl CasDescriptor for Increment {
    fn execute(&self) -> Result<(), ()> {
        if self.value.get() == self.expected {
            self.value.set(self.expected + 1);
            Ok(())
        } else {
            Err(())
        }
    }
}

impl NormalisedLockFree for Counter {
    type Input = ();
    type Output = u64;
    type Cas = Increment;
    type Cases = Vec<Increment>;
    type ContentionMeasure = CounterContentionMeasure;

    fn generator(&self, _op: &(), _contention: &mut CounterContentionMeasure) -> Vec<Increment> {
        vec![Increment { value: self.value.clone(), expected: self.value.get() }]
    }

    fn wrap_up(
        &self,
        result: Result<(), usize>,
        performed: &Vec<Increment>,
        _contention: &mut CounterContentionMeasure,
    ) -> Result<u64, ()> {
        match result {
            Ok(()) => Ok(performed[0].expected + 1),
            Err(_) => Err(()),
        }
    }
}

fn counter() -> (Rc<Cell<u64>>, Counter) {
    let value = Rc::new(Cell::new(0));
    (value.clone(), Counter { value })
}

#[test]
fn two_increments_return_distinct_values() {
    let (value, lf) = counter();
    let mut sim = WaitFreeSimulator::new(lf);
    let a = sim.run(1, ());
    let b = sim.run(2, ());
    assert_eq!(a, Ok(1));
    assert_eq!(b, Ok(2));
    assert_eq!(value.get(), 2);
    assert_eq!(sim.box_count(), 0);
}

#[test]
fn two_published_increments_helped_in_turn() {
    let (value, lf) = counter();
    let mut sim = WaitFreeSimulator::with_thresholds(lf, 2, 0, 64);
    let a = sim.publish(1, ());
    let b = sim.publish(2, ());
    // Every step goes to the operation at the head of the queue.
    while sim.help_queue().len() > 0 {
        let head = sim.help_queue().peek().unwrap();
        sim.help_step(head);
    }
    let out_a = match &sim.box_at(a).load().state {
        OperationState::Completed(o) => *o,
        _ => panic!("first operation not completed"),
    };
    let out_b = match &sim.box_at(b).load().state {
        OperationState::Completed(o) => *o,
        _ => panic!("second operation not completed"),
    };
    assert_eq!((out_a, out_b), (1, 2));
    assert_eq!(value.get(), 2);
}

#[test]
fn slow_path_run_returns_own_output() {
    let (value, lf) = counter();
    let mut sim = WaitFreeSimulator::with_thresholds(lf, 2, 0, 64);
    assert_eq!(sim.run(1, ()), Ok(1));
    assert_eq!(sim.run(2, ()), Ok(2));
    assert_eq!(value.get(), 2);
    assert_eq!(sim.box_count(), 2);
    assert_eq!(sim.help_queue().peek(), None);
}

#[test]
fn racing_helpers_one_accepted_transition_per_step() {
    let (_value, lf) = counter();
    let mut sim = WaitFreeSimulator::new(lf);
    let id = sim.publish(7, ());
    let p: Proposal<Vec<Increment>, u64> = sim.propose(id).unwrap();
    let q = sim.propose(id).unwrap();
    let r = sim.propose(id).unwrap();
    assert_eq!(p.version, 0);
    assert_eq!(sim.commit(id, p), Ok(()));
    assert_eq!(sim.commit(id, q), Err(()));
    assert_eq!(sim.commit(id, r), Err(()));
    assert_eq!(sim.box_at(id).version(), 1);
    assert!(matches!(sim.box_at(id).load().state, OperationState::ExecuteCas(_)));
    assert_eq!(sim.box_at(id).load().owner, 7);
}

#[test]
fn observed_states_follow_the_state_graph() {
    let (_value, lf) = counter();
    let mut sim = WaitFreeSimulator::new(lf);
    let id = sim.publish(1, ());
    let mut seen = Vec::new();
    loop {
        let kind = match &sim.box_at(id).load().state {
            OperationState::PreCAS => "pre",
            OperationState::ExecuteCas(_) => "execute",
            OperationState::PostCAS(_, _) => "post",
            OperationState::Completed(_) => "completed",
        };
        seen.push(kind);
        if sim.help_step(id) {
            break;
        }
    }
    assert_eq!(seen, vec!["pre", "execute", "post", "completed"]);
    assert_eq!(sim.box_at(id).version(), 3);
    assert_eq!(sim.help_queue().len(), 0);
}

#[test]
fn stale_steps_restart_from_pre_cas() {
    let (value, lf) = counter();
    let mut sim = WaitFreeSimulator::new(lf);
    let id = sim.publish(1, ());
    sim.help_step(id);
    // Another caller changes the counter before the steps run.
    value.set(10);
    sim.help_step(id);
    assert!(matches!(sim.box_at(id).load().state, OperationState::PostCAS(_, Err(0))));
    sim.help_step(id);
    assert!(matches!(sim.box_at(id).load().state, OperationState::PreCAS));
    assert!(sim.help_op(id));
    match &sim.box_at(id).load().state {
        OperationState::Completed(o) => assert_eq!(*o, 11),
        _ => panic!("operation not completed"),
    }
    assert_eq!(value.get(), 11);
}

#[test]
fn orphaned_operation_completed_by_other_callers() {
    let (value, lf) = counter();
    let mut sim = WaitFreeSimulator::new(lf);
    let orphan = sim.publish(9, ());
    // The publisher never helps again; an ordinary caller finishes its work.
    assert_eq!(sim.run(1, ()), Ok(2));
    match &sim.box_at(orphan).load().state {
        OperationState::Completed(o) => assert_eq!(*o, 1),
        _ => panic!("orphan not completed"),
    }
    assert_eq!(sim.help_queue().len(), 0);
    assert_eq!(value.get(), 2);
}

#[test]
fn published_operations_finish_within_step_bound() {
    let (value, lf) = counter();
    // One round of helping per operation in the queue, the caller's own
    // included, suffices.
    let mut sim = WaitFreeSimulator::with_thresholds(lf, 2, 0, 3);
    sim.publish(1, ());
    sim.publish(2, ());
    assert_eq!(sim.run(3, ()), Ok(3));
    assert_eq!(value.get(), 3);
}

#[test]
fn step_bound_below_queue_length_hands_back_box() {
    let (value, lf) = counter();
    let mut sim = WaitFreeSimulator::with_thresholds(lf, 2, 0, 2);
    sim.publish(1, ());
    sim.publish(2, ());
    assert_eq!(sim.run(3, ()), Err(2));
    // The first operation completed; the second has not started.
    assert_eq!(value.get(), 1);
    assert_eq!(sim.help_queue().peek(), Some(1));
    assert!(matches!(sim.box_at(1).load().state, OperationState::PreCAS));
}

#[test]
fn exhausted_step_bound_leaves_operation_published() {
    let (_value, lf) = counter();
    let mut sim = WaitFreeSimulator::with_thresholds(lf, 2, 0, 0);
    assert_eq!(sim.run(3, ()), Err(0));
    assert_eq!(sim.help_queue().peek(), Some(0));
    // With no steps to spare, `help_op` takes a single one.
    assert!(!sim.help_op(0));
    assert!(matches!(sim.box_at(0).load().state, OperationState::ExecuteCas(_)));
    while !sim.help_step(0) {}
    assert!(matches!(sim.box_at(0).load().state, OperationState::Completed(1)));
}

#[test]
fn counter_contention_measure_threshold() {
    let mut c = CounterContentionMeasure::with_threshold(2);
    assert!(!c.detected());
    c.detect();
    c.detect();
    assert!(!c.detected());
    c.detect();
    assert!(c.detected());
    c.reset();
    assert!(!c.detected());
    let d = <CounterContentionMeasure as ContentionMeasure>::new();
    assert!(!d.detected());
}
