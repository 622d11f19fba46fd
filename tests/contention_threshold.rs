use std::cell::Cell;
use std::rc::Rc;

use waitfree::{
    after_step, fast_path_next, CasDescriptor, ContentionMeasure, CounterContentionMeasure,
    FastPathDecision, HelpQueue, NormalisedLockFree,
    WaitFreeSimulator, CONTENTION_THRESHOLD, HELP_BOUND, RETRY_THRESHOLD,
};

/// A step that fails while failures remain to be given out.
struct Flaky {
    failures_left: Rc<Cell<usize>>,
    executions: Rc<Cell<usize>>,
}

impl CasDescriptor for Flaky {
    fn execute(&self) -> Result<(), ()> {
        self.executions.set(self.executions.get() + 1);
        if self.failures_left.get() > 0 {
            self.failures_left.set(self.failures_left.get() - 1);
            Err(())
        } else {
            Ok(())
        }
    }
}

struct FlakyOp {
    failures_left: Rc<Cell<usize>>,
    executions: Rc<Cell<usize>>,
    steps: usize,
}

impl NormalisedLockFree for FlakyOp {
    type Input = u32;
    type Output = u32;
    type Cas = Flaky;
    type Cases = Vec<Flaky>;
    type ContentionMeasure = CounterContentionMeasure;

    fn generator(&self, _op: &u32, _contention: &mut CounterContentionMeasure) -> Vec<Flaky> {
        let mut v = Vec::new();
        for _ in 0..self.steps {
            v.push(Flaky { failures_left: self.failures_left.clone(), executions: self.executions.clone() });
        }
        v
    }

    fn wrap_up(
        &self,
        result: Result<(), usize>,
        _performed: &Vec<Flaky>,
        _contention: &mut CounterContentionMeasure,
    ) -> Result<u32, ()> {
        match result {
            Ok(()) => Ok(7),
            Err(_) => Err(()),
        }
    }
}

fn flaky(k: usize, steps: usize) -> (Rc<Cell<usize>>, FlakyOp) {
    let executions = Rc::new(Cell::new(0));
    let op = FlakyOp { failures_left: Rc::new(Cell::new(k)), executions: executions.clone(), steps };
    (executions, op)
}

#[test]
fn default_thresholds() {
    assert_eq!(CONTENTION_THRESHOLD, 2);
    assert_eq!(RETRY_THRESHOLD, 2);
    assert_eq!(HELP_BOUND, 1024);
}

#[test]
fn fast_path_absorbs_failures_below_retry_bound() {
    for k in 0..RETRY_THRESHOLD {
        let (_, lf) = flaky(k, 1);
        let mut sim = WaitFreeSimulator::new(lf);
        assert_eq!(sim.run(1, 5), Ok(7));
        assert_eq!(sim.box_count(), 0, "k = {}", k);
    }
}

#[test]
fn fast_path_falls_through_at_retry_bound() {
    let (executions, lf) = flaky(RETRY_THRESHOLD, 1);
    let mut sim = WaitFreeSimulator::new(lf);
    assert_eq!(sim.run(1, 5), Ok(7));
    assert_eq!(sim.box_count(), 1);
    assert_eq!(sim.box_at(0).load().input, 5);
    assert_eq!(executions.get(), RETRY_THRESHOLD + 1);
}

#[test]
fn detected_contention_ends_fast_path_early() {
    // With a threshold of zero the first failed step is contention.
    let (executions, lf) = flaky(1, 1);
    let mut sim = WaitFreeSimulator::with_thresholds(lf, 0, 5, 16);
    assert_eq!(sim.run(1, 5), Ok(7));
    assert_eq!(sim.box_count(), 1);
    assert_eq!(executions.get(), 2);
}

#[test]
fn cas_execute_stops_at_first_failure() {
    let (executions, lf) = flaky(1, 0);
    let sim = WaitFreeSimulator::new(lf);
    let steps = vec![
        Flaky { failures_left: Rc::new(Cell::new(0)), executions: executions.clone() },
        Flaky { failures_left: Rc::new(Cell::new(1)), executions: executions.clone() },
        Flaky { failures_left: Rc::new(Cell::new(0)), executions: executions.clone() },
    ];
    let mut contention = CounterContentionMeasure::with_threshold(0);
    assert_eq!(sim.cas_execute(&steps, &mut contention), Err(1));
    assert_eq!(executions.get(), 2);
    assert!(contention.detected());
}

#[test]
fn cas_execute_runs_every_step() {
    let (executions, lf) = flaky(0, 0);
    let sim = WaitFreeSimulator::new(lf);
    let steps = vec![
        Flaky { failures_left: Rc::new(Cell::new(0)), executions: executions.clone() },
        Flaky { failures_left: Rc::new(Cell::new(0)), executions: executions.clone() },
    ];
    let mut contention = CounterContentionMeasure::with_threshold(0);
    assert_eq!(sim.cas_execute(&steps, &mut contention), Ok(()));
    assert_eq!(executions.get(), 2);
    assert!(!contention.detected());
    let empty: Vec<Flaky> = Vec::new();
    assert_eq!(sim.cas_execute(&empty, &mut contention), Ok(()));
}

#[test]
fn help_queue_is_fifo() {
    let mut q = HelpQueue::new();
    assert_eq!(q.peek(), None);
    q.enqueue(4);
    q.enqueue(9);
    assert_eq!(q.len(), 2);
    assert_eq!(q.peek(), Some(4));
    assert_eq!(q.try_remove_front(9, true), Err(()));
    assert_eq!(q.try_remove_front(4, false), Err(()));
    assert_eq!(q.peek(), Some(4));
    assert_eq!(q.try_remove_front(4, true), Ok(()));
    assert_eq!(q.try_remove_front(4, true), Err(()));
    assert_eq!(q.peek(), Some(9));
    assert_eq!(q.try_remove_front(9, true), Ok(()));
    assert_eq!(q.len(), 0);
}

#[test]
fn many_operations_leave_consistent_state() {
    let (executions, lf) = flaky(3, 2);
    let mut sim = WaitFreeSimulator::with_thresholds(lf, 1, 1, 64);
    for i in 0..50u32 {
        assert_eq!(sim.run(i as u64, i), Ok(7));
    }
    assert!(executions.get() >= 100);
    assert!(sim.help_queue().len() <= 1);
}

#[test]
fn after_step_rule() {
    assert_eq!(after_step(0, 3, Ok(())), None);
    assert_eq!(after_step(2, 3, Ok(())), Some(Ok(())));
    assert_eq!(after_step(1, 3, Err(())), Some(Err(1)));
    assert_eq!(after_step(0, 1, Err(())), Some(Err(0)));
}

#[test]
fn fast_path_rule() {
    assert!(matches!(fast_path_next(1, 2, false, None), FastPathDecision::Continue));
    assert!(matches!(fast_path_next(1, 2, true, None), FastPathDecision::Publish));
    assert!(matches!(fast_path_next(1, 2, true, Some(true)), FastPathDecision::Finish));
    assert!(matches!(fast_path_next(1, 2, false, Some(false)), FastPathDecision::Retry));
    assert!(matches!(fast_path_next(2, 2, false, Some(false)), FastPathDecision::Publish));
    assert!(matches!(fast_path_next(1, 2, true, Some(false)), FastPathDecision::Publish));
}
