use vstd::prelude::*;
use crate::capability::{CasDescriptor, CasDescriptors, NormalisedLockFree};
use crate::contention::{ContentionMeasure, CONTENTION_THRESHOLD, bumped};
use crate::help_queue::HelpQueue;
use crate::record::{
    legal_step, successor, Change, OperationRecordBox, OperationState, Proposal,
};

verus! {

/// Fast-path attempts made before an operation is published for helping.
pub const RETRY_THRESHOLD: usize = 2;

/// Helped steps that `run` takes on the slow path before it hands the
/// published operation back to its caller.
pub const HELP_BOUND: usize = 1024;

/// What the fast path does at one of its checkpoints.
pub enum FastPathDecision {
    /// Go on with the current attempt.
    Continue,
    /// Return the output that `wrap_up` accepted.
    Finish,
    /// Start another attempt.
    Retry,
    /// Give up on the fast path and publish the operation.
    Publish,
}

/// The fast path's rule. `accepted` is `None` before `wrap_up` has run in the
/// current attempt, and whether it returned `Ok` afterwards; `attempts`
/// counts the attempts made so far, the current one included. An accepted
/// outcome is returned at once; detected contention ends the fast path; a
/// rejected outcome is retried while attempts remain.
pub open spec fn fast_path_decision(
    attempts: usize,
    retry_threshold: usize,
    detected: bool,
    accepted: Option<bool>,
) -> FastPathDecision {
    if accepted == Some(true) {
        FastPathDecision::Finish
    } else if detected {
        FastPathDecision::Publish
    } else if accepted is None {
        FastPathDecision::Continue
    } else if attempts < retry_threshold {
        FastPathDecision::Retry
    } else {
        FastPathDecision::Publish
    }
}

pub fn fast_path_next(attempts: usize, retry_threshold: usize, detected: bool, accepted: Option<bool>) -> (r:
    FastPathDecision)
    ensures
        r == fast_path_decision(attempts, retry_threshold, detected, accepted),
{
    match accepted {
        Some(true) => FastPathDecision::Finish,
        _ => {
            if detected {
                FastPathDecision::Publish
            } else {
                match accepted {
                    None => FastPathDecision::Continue,
                    _ => {
                        if attempts < retry_threshold {
                            FastPathDecision::Retry
                        } else {
                            FastPathDecision::Publish
                        }
                    },
                }
            }
        },
    }
}

/// What executing the list does after step `i` of `len` came back with
/// `outcome`: a failure ends it with that step's index, a success after the
/// last step ends it with `Ok`, and any other success goes on to step `i + 1`
/// (`None`).
pub fn after_step(i: usize, len: usize, outcome: Result<(), ()>) -> (r: Option<Result<(), usize>>)
    requires
        i < len,
    ensures
        outcome is Err ==> r == Some(Err::<(), usize>(i)),
        outcome is Ok ==> r == (if i + 1 == len { Some(Ok::<(), usize>(())) } else { None }),
{
    match outcome {
        Err(()) => Some(Err(i)),
        Ok(()) => {
            if i + 1 == len {
                Some(Ok(()))
            } else {
                None
            }
        },
    }
}

/// The sum of the version tags of `boxes`.
pub open spec fn version_total<LF: NormalisedLockFree>(boxes: Seq<OperationRecordBox<LF>>) -> int
    decreases boxes.len(),
{
    if boxes.len() == 0 {
        0
    } else {
        version_total(boxes.drop_last()) + boxes.last().spec_version()
    }
}

proof fn lemma_version_total_grows<LF: NormalisedLockFree>(
    a: Seq<OperationRecordBox<LF>>,
    b: Seq<OperationRecordBox<LF>>,
    k: int,
)
    requires
        a.len() == b.len(),
        forall|i: int| 0 <= i < a.len() ==> a[i].spec_version() <= #[trigger] b[i].spec_version(),
    ensures
        version_total(a) <= version_total(b),
        0 <= k < a.len() && a[k].spec_version() < b[k].spec_version() ==> version_total(a) + 1 <= version_total(b),
    decreases a.len(),
{
    if a.len() > 0 {
        let (a0, b0) = (a.drop_last(), b.drop_last());
        assert forall|i: int| 0 <= i < a0.len() implies a0[i].spec_version() <= #[trigger] b0[i].spec_version() by {
            assert(a0[i] == a[i] && b0[i] == b[i]);
        }
        lemma_version_total_grows(a0, b0, k);
        if 0 <= k < a0.len() {
            assert(a0[k] == a[k] && b0[k] == b[k]);
        }
        assert(a.last().spec_version() <= b.last().spec_version()) by {
            assert(a.last() == a[a.len() - 1]);
            assert(b.last() == b[a.len() - 1]);
        }
    }
}

/// Runs the operations of a normalised lock-free algorithm: a bounded fast
/// path of direct attempts, then publication to the help queue, where every
/// caller advances the operation at the head.
pub struct WaitFreeSimulator<LF: NormalisedLockFree> {
    lf: LF,
    boxes: Vec<OperationRecordBox<LF>>,
    help_queue: HelpQueue,
    contention_threshold: usize,
    retry_threshold: usize,
    help_bound: usize,
}

impl<LF: NormalisedLockFree> WaitFreeSimulator<LF> {
    /// Every published operation, indexed by the number its box was given.
    pub closed spec fn boxes(&self) -> Seq<OperationRecordBox<LF>> {
        self.boxes@
    }

    /// The numbers of the boxes in the help queue, head first.
    pub closed spec fn queue(&self) -> Seq<usize> {
        self.help_queue@
    }

    /// The algorithm being run.
    pub closed spec fn spec_algorithm(&self) -> LF {
        self.lf
    }

    pub closed spec fn spec_contention_threshold(&self) -> usize {
        self.contention_threshold
    }

    pub closed spec fn spec_retry_threshold(&self) -> usize {
        self.retry_threshold
    }

    pub closed spec fn spec_help_bound(&self) -> usize {
        self.help_bound
    }

    /// Each box of `earlier` is still there, with its history carried on, and
    /// a completed one is untouched.
    pub open spec fn carried_on(&self, earlier: Self) -> bool {
        &&& earlier.boxes().len() <= self.boxes().len()
        &&& forall|i: int| 0 <= i < earlier.boxes().len() ==> #[trigger] self.boxes()[i].continues(earlier.boxes()[i])
    }

    /// `op` of `owner` was published in a new box after the boxes of `earlier`.
    pub open spec fn published(&self, earlier: Self, owner: u64, op: LF::Input) -> bool {
        &&& self.boxes().len() == earlier.boxes().len() + 1
        &&& self.boxes()[earlier.boxes().len() as int].spec_input() == op
        &&& self.boxes()[earlier.boxes().len() as int].spec_owner() == owner
    }

    proof fn lemma_carried_on_trans(a: Self, b: Self, c: Self)
        requires
            b.carried_on(a),
            c.carried_on(b),
        ensures
            c.carried_on(a),
    {
        assert forall|i: int| 0 <= i < a.boxes().len() implies #[trigger] c.boxes()[i].continues(a.boxes()[i]) by {
            let ha = a.boxes()[i].history();
            let hb = b.boxes()[i].history();
            let hc = c.boxes()[i].history();
            assert(b.boxes()[i].continues(a.boxes()[i]));
            assert(c.boxes()[i].continues(b.boxes()[i]));
            assert forall|k: int| 0 <= k < ha.len() implies hc[k] == ha[k] by {
                assert(hb[k] == ha[k]);
                assert(hc[k] == hb[k]);
            }
        }
    }

    /// A measure of the work done: the sum of the version tags, plus the
    /// number of boxes that have left the queue. Every round of helping on a
    /// non-empty queue raises it by at least one while no version tag is
    /// exhausted.
    pub open spec fn progress(&self) -> int {
        version_total(self.boxes()) + self.boxes().len() - self.queue().len()
    }

    /// No box has exhausted its version tags.
    pub open spec fn versions_below_max(&self) -> bool {
        forall|i: int| 0 <= i < self.boxes().len() ==> #[trigger] self.boxes()[i].spec_version() < u64::MAX
    }

    proof fn lemma_versions_grow(earlier: Self, later: Self)
        requires
            earlier.wf(),
            later.wf(),
            later.carried_on(earlier),
            later.boxes().len() == earlier.boxes().len(),
        ensures
            forall|i: int| 0 <= i < earlier.boxes().len() ==> earlier.boxes()[i].spec_version() <= #[trigger] later.boxes()[i].spec_version(),
            version_total(earlier.boxes()) <= version_total(later.boxes()),
            later.versions_below_max() ==> earlier.versions_below_max(),
    {
        assert forall|i: int| 0 <= i < earlier.boxes().len() implies earlier.boxes()[i].spec_version() <= #[trigger] later.boxes()[i].spec_version() by {
            assert(later.boxes()[i].continues(earlier.boxes()[i]));
            assert(earlier.boxes()[i].wf());
            assert(later.boxes()[i].wf());
        }
        lemma_version_total_grows(earlier.boxes(), later.boxes(), -1);
        if later.versions_below_max() {
            assert forall|i: int| 0 <= i < earlier.boxes().len() implies #[trigger] earlier.boxes()[i].spec_version()
                < u64::MAX by {
                assert(later.boxes()[i].spec_version() < u64::MAX);
            }
        }
    }

    /// The thresholds are those of `other`.
    pub open spec fn same_config(&self, other: Self) -> bool {
        &&& self.spec_contention_threshold() == other.spec_contention_threshold()
        &&& self.spec_retry_threshold() == other.spec_retry_threshold()
        &&& self.spec_help_bound() == other.spec_help_bound()
    }

    /// Every box is well formed, the queue names boxes that exist in the
    /// order they were published, and a box that has left the queue holds a
    /// completed operation.
    pub open spec fn wf(&self) -> bool {
        &&& self.boxes().len() <= usize::MAX
        &&& forall|j: int, k: int| 0 <= j < k < self.queue().len() ==> self.queue()[j] < self.queue()[k]
        &&& forall|i: int| 0 <= i < self.boxes().len() ==> (#[trigger] self.boxes()[i]).wf()
        &&& forall|j: int| 0 <= j < self.queue().len() ==> #[trigger] self.queue()[j] < self.boxes().len()
        &&& forall|i: int|
            0 <= i < self.boxes().len() && !self.queue().contains(i as usize)
                ==> (#[trigger] self.boxes()[i]).state() is Completed
    }

    /// A simulator with the default thresholds.
    pub fn new(lf: LF) -> (r: Self)
        ensures
            r.wf(),
            r.boxes().len() == 0,
            r.queue().len() == 0,
            r.spec_contention_threshold() == CONTENTION_THRESHOLD,
            r.spec_retry_threshold() == RETRY_THRESHOLD,
            r.spec_help_bound() == HELP_BOUND,
    {
        Self::with_thresholds(lf, CONTENTION_THRESHOLD, RETRY_THRESHOLD, HELP_BOUND)
    }

    /// A simulator with the given thresholds.
    pub fn with_thresholds(lf: LF, contention_threshold: usize, retry_threshold: usize, help_bound: usize) -> (r: Self)
        ensures
            r.wf(),
            r.boxes().len() == 0,
            r.queue().len() == 0,
            r.spec_contention_threshold() == contention_threshold,
            r.spec_retry_threshold() == retry_threshold,
            r.spec_help_bound() == help_bound,
    {
        WaitFreeSimulator {
            lf,
            boxes: Vec::new(),
            help_queue: HelpQueue::new(),
            contention_threshold,
            retry_threshold,
            help_bound,
        }
    }

    /// Publishes `op` in a new box in `PreCAS` and appends that box to the
    /// help queue; returns the box's number.
    pub fn publish(&mut self, owner: u64, op: LF::Input) -> (id: usize)
        requires
            old(self).wf(),
            old(self).boxes().len() < usize::MAX,
        ensures
            final(self).wf(),
            id == old(self).boxes().len(),
            final(self).boxes().len() == old(self).boxes().len() + 1,
            forall|i: int| 0 <= i < id ==> final(self).boxes()[i] == old(self).boxes()[i],
            final(self).boxes()[id as int].state() == OperationState::<LF::Cases, LF::Output>::PreCAS,
            final(self).boxes()[id as int].spec_version() == 0,
            final(self).boxes()[id as int].spec_input() == op,
            final(self).boxes()[id as int].spec_owner() == owner,
            final(self).queue() == old(self).queue().push(id),
            final(self).same_config(*old(self)),
    {
        let id = self.boxes.len();
        self.boxes.push(OperationRecordBox::new(owner, op));
        self.help_queue.enqueue(id);
        proof {
            assert forall|i: int| 0 <= i < self.boxes().len() && !self.queue().contains(i as usize)
                implies (#[trigger] self.boxes()[i]).state() is Completed by {
                assert(self.queue()[old(self).queue().len() as int] == id);
                assert(i != id);
                if old(self).queue().contains(i as usize) {
                    let k = choose|k: int| 0 <= k < old(self).queue().len() && old(self).queue()[k] == i as usize;
                    assert(self.queue()[k] == i as usize);
                }
            }
        }
        id
    }

    /// Reads box `id` and computes, from that snapshot alone, the successor
    /// of its state; `None` when the operation is already completed.
    pub fn propose(&self, id: usize) -> (r: Option<Proposal<LF::Cases, LF::Output>>)
        requires
            self.wf(),
            id < self.boxes().len(),
        ensures
            r is None <==> self.boxes()[id as int].state() is Completed,
            r matches Some(p) ==> p.version == self.boxes()[id as int].spec_version(),
            r matches Some(p) ==> successor(self.boxes()[id as int].state(), p.change) is Some,
    {
        let b = &self.boxes[id];
        let record = b.load();
        let version = b.version();
        let mut contention = LF::ContentionMeasure::with_threshold(self.contention_threshold);
        let change = match &record.state {
            OperationState::PreCAS => Change::Generated(self.lf.generator(&record.input, &mut contention)),
            OperationState::ExecuteCas(l) => Change::Executed(self.cas_execute(l, &mut contention)),
            OperationState::PostCAS(l, res) => {
                match self.lf.wrap_up(*res, l, &mut contention) {
                    Ok(o) => Change::Finished(o),
                    Err(()) => Change::Restart,
                }
            },
            OperationState::Completed(_) => {
                return None;
            },
        };
        Some(Proposal { version, change })
    }

    /// Compare-and-replace on box `id`: installs the successor in `p` when `p`
    /// was computed from the box's current version, and otherwise discards it.
    pub fn commit(&mut self, id: usize, p: Proposal<LF::Cases, LF::Output>) -> (r: Result<(), ()>)
        requires
            old(self).wf(),
            id < old(self).boxes().len(),
        ensures
            final(self).wf(),
            r is Ok <==> old(self).boxes()[id as int].accepts(p),
            r is Ok ==> final(self).boxes()[id as int].state() == successor(old(self).boxes()[id as int].state(), p.change)->Some_0,
            r is Ok ==> final(self).boxes()[id as int].spec_version() == old(self).boxes()[id as int].spec_version() + 1,
            r is Ok ==> final(self).boxes()[id as int].history() == old(self).boxes()[id as int].history().push(
                final(self).boxes()[id as int].state(),
            ),
            r is Err ==> final(self).boxes()[id as int] == old(self).boxes()[id as int],
            final(self).boxes()[id as int].spec_input() == old(self).boxes()[id as int].spec_input(),
            final(self).boxes()[id as int].spec_owner() == old(self).boxes()[id as int].spec_owner(),
            final(self).boxes().len() == old(self).boxes().len(),
            forall|i: int| 0 <= i < final(self).boxes().len() && i != id ==> final(self).boxes()[i] == old(self).boxes()[i],
            final(self).queue() == old(self).queue(),
            final(self).same_config(*old(self)),
    {
        let r = self.boxes[id].compare_and_replace(p);
        proof {
            assert(old(self).boxes()[id as int].wf());
            assert forall|i: int| 0 <= i < self.boxes().len() && !self.queue().contains(i as usize)
                implies (#[trigger] self.boxes()[i]).state() is Completed by {
                assert(old(self).boxes()[i].state() is Completed);
            }
            assert forall|i: int| 0 <= i < self.boxes().len() implies (#[trigger] self.boxes()[i]).wf() by {
                assert(old(self).boxes()[i].wf());
            }
        }
        r
    }

    /// One helped step on box `id`: when its operation is completed, tries to
    /// remove it from the head of the queue and returns `true`; otherwise
    /// advances it by one transition and returns `false`.
    pub fn help_step(&mut self, id: usize) -> (completed: bool)
        requires
            old(self).wf(),
            id < old(self).boxes().len(),
        ensures
            final(self).wf(),
            final(self).same_config(*old(self)),
            final(self).carried_on(*old(self)),
            final(self).boxes().len() == old(self).boxes().len(),
            completed == old(self).boxes()[id as int].state() is Completed,
            completed ==> final(self).boxes() == old(self).boxes(),
            completed ==> final(self).queue() == (if old(self).queue().len() > 0 && old(self).queue()[0] == id {
                old(self).queue().drop_first()
            } else {
                old(self).queue()
            }),
            !completed ==> final(self).queue() == old(self).queue(),
            !completed ==> forall|i: int| 0 <= i < final(self).boxes().len() && i != id ==> final(self).boxes()[i] == old(self).boxes()[i],
            !completed && old(self).boxes()[id as int].spec_version() < u64::MAX ==> {
                &&& final(self).boxes()[id as int].spec_version() == old(self).boxes()[id as int].spec_version() + 1
                &&& legal_step(old(self).boxes()[id as int].state(), final(self).boxes()[id as int].state())
            },
    {
        match self.propose(id) {
            None => {
                let removed = self.help_queue.try_remove_front(id, true);
                proof {
                    assert forall|i: int| 0 <= i < self.boxes().len() && !self.queue().contains(i as usize)
                        implies (#[trigger] self.boxes()[i]).state() is Completed by {
                        if i != id && old(self).queue().contains(i as usize) {
                            let k = choose|k: int| 0 <= k < old(self).queue().len() && old(self).queue()[k] == i as usize;
                            if removed is Ok {
                                assert(old(self).queue()[0] == id);
                                assert(k != 0);
                                assert(self.queue()[k - 1] == i as usize);
                            }
                        }
                    }
                    assert forall|j: int| 0 <= j < self.queue().len() implies #[trigger] self.queue()[j] < self.boxes().len() by {
                        if removed is Ok {
                            assert(self.queue()[j] == old(self).queue()[j + 1]);
                        }
                    }
                    assert forall|i: int| 0 <= i < old(self).boxes().len() implies
                        #[trigger] self.boxes()[i].continues(old(self).boxes()[i]) by {}
                }
                true
            },
            Some(p) => {
                proof {
                    assert(old(self).boxes()[id as int].wf());
                }
                let _ = self.commit(id, p);
                proof {
                    assert forall|i: int| 0 <= i < old(self).boxes().len() implies
                        #[trigger] self.boxes()[i].continues(old(self).boxes()[i]) by {
                        let h0 = old(self).boxes()[i].history();
                        let h1 = self.boxes()[i].history();
                        assert(forall|k: int| 0 <= k < h0.len() ==> h1[k] == h0[k]);
                    }
                    let h = self.boxes()[id as int].history();
                    if old(self).boxes()[id as int].spec_version() < u64::MAX {
                        assert(legal_step(h[h.len() - 2], h[h.len() - 1]));
                    }
                }
                false
            },
        }
    }

    /// Helps box `id` until its operation is completed, then tries to remove
    /// it from the head of the queue; takes at most the configured number of
    /// helped steps and returns `true` once it found the operation completed,
    /// `false` when those steps ran out first.
    pub fn help_op(&mut self, id: usize) -> (completed: bool)
        requires
            old(self).wf(),
            id < old(self).boxes().len(),
        ensures
            final(self).wf(),
            final(self).same_config(*old(self)),
            final(self).carried_on(*old(self)),
            final(self).boxes().len() == old(self).boxes().len(),
            forall|i: int| 0 <= i < final(self).boxes().len() && i != id ==> final(self).boxes()[i] == old(self).boxes()[i],
            completed ==> final(self).boxes()[id as int].state() is Completed,
            old(self).boxes()[id as int].state() is Completed ==> completed,
            old(self).boxes()[id as int].state() is Completed ==> final(self).boxes() == old(self).boxes(),
            final(self).queue() == old(self).queue() || (old(self).queue().len() > 0 && old(self).queue()[0] == id
                && final(self).queue() == old(self).queue().drop_first()),
            old(self).queue().len() > 0 && old(self).queue()[0] == id && completed ==> final(self).queue() == old(
                self,
            ).queue().drop_first(),
            !completed ==> final(self).queue() == old(self).queue(),
            !completed && old(self).boxes()[id as int].spec_version() + old(self).spec_help_bound() < u64::MAX
                ==> final(self).boxes()[id as int].spec_version() == old(self).boxes()[id as int].spec_version()
                + old(self).spec_help_bound() + 1,
            !(old(self).boxes()[id as int].state() is Completed) && old(self).boxes()[id as int].spec_version()
                < u64::MAX ==> final(self).boxes()[id as int].spec_version() > old(
                self,
            ).boxes()[id as int].spec_version(),
    {
        let ghost start = old(self).boxes()[id as int].spec_version() as int;
        let mut steps: usize = 0;
        loop
            invariant
                self.wf(),
                self.same_config(*old(self)),
                self.carried_on(*old(self)),
                self.boxes().len() == old(self).boxes().len(),
                id < self.boxes().len(),
                forall|i: int| 0 <= i < self.boxes().len() && i != id ==> self.boxes()[i] == old(self).boxes()[i],
                self.queue() == old(self).queue(),
                start == old(self).boxes()[id as int].spec_version(),
                steps <= self.help_bound,
                steps == 0 ==> self.boxes() == old(self).boxes(),
                steps > 0 ==> !(old(self).boxes()[id as int].state() is Completed),
                start + steps <= u64::MAX ==> self.boxes()[id as int].spec_version() == start + steps,
                steps > 0 && start < u64::MAX ==> self.boxes()[id as int].spec_version() > start,
            decreases self.help_bound - steps,
        {
            let ghost before = *self;
            if self.help_step(id) {
                proof {
                    assert(self.boxes()[id as int] == before.boxes()[id as int]);
                }
                return true;
            }
            proof {
                let vb = before.boxes()[id as int].spec_version() as int;
                let va = self.boxes()[id as int].spec_version() as int;
                assert(!(before.boxes()[id as int].state() is Completed));
                if vb < u64::MAX {
                    assert(va == vb + 1);
                }
                if start + steps + 1 <= u64::MAX {
                    assert(vb == start + steps);
                    assert(va == start + steps + 1);
                }
                assert(before.boxes()[id as int].continues(old(self).boxes()[id as int]));
                assert(self.boxes()[id as int].continues(before.boxes()[id as int]));
                Self::lemma_carried_on_trans(*old(self), before, *self);
                assert(before.boxes()[id as int].wf());
                assert(self.boxes()[id as int].wf());
                if steps == 0 {
                    assert(before.boxes()[id as int] == old(self).boxes()[id as int]);
                }
                assert(va >= vb);
                if start < u64::MAX {
                    assert(va > start);
                }
            }
            if steps >= self.help_bound {
                proof {
                    assert(steps == self.spec_help_bound());
                }
                return false;
            }
            steps = steps + 1;
        }
    }

    /// Helps the operation at the head of the queue, if there is one.
    pub fn help_first(&mut self)
        requires
            old(self).wf(),
        ensures
            final(self).wf(),
            final(self).same_config(*old(self)),
            final(self).carried_on(*old(self)),
            final(self).boxes().len() == old(self).boxes().len(),
            old(self).queue().len() == 0 ==> *final(self) == *old(self),
            final(self).queue() == old(self).queue() || final(self).queue() == old(self).queue().drop_first(),
            old(self).queue().len() > 0 ==> forall|i: int|
                0 <= i < final(self).boxes().len() && i != old(self).queue()[0] ==> final(self).boxes()[i] == old(
                    self,
                ).boxes()[i],
            old(self).queue().len() > 0 && old(self).boxes()[old(self).queue()[0] as int].state() is Completed
                ==> final(self).queue() == old(self).queue().drop_first() && final(self).boxes() == old(self).boxes(),
            old(self).queue().len() > 0 && !(old(self).boxes()[old(self).queue()[0] as int].state() is Completed)
                && old(self).boxes()[old(self).queue()[0] as int].spec_version() < u64::MAX
                ==> final(self).boxes()[old(self).queue()[0] as int].spec_version() > old(self).boxes()[old(
                self,
            ).queue()[0] as int].spec_version(),
    {
        match self.help_queue.peek() {
            Some(head) => {
                let _ = self.help_op(head);
            },
            None => {},
        }
    }

    /// Runs `op` to completion. The fast path makes at most the configured
    /// number of direct attempts, helping the head of the queue before each,
    /// and returns the output of the first that `wrap_up` accepts; it gives up
    /// early once contention is detected. The slow path publishes `op` in a
    /// new box and helps the head of the queue until that box is completed,
    /// for at most the configured number of helped steps: `Ok` with a copy of
    /// the box's output, or `Err` with the number of the box, which stays
    /// published for other callers to finish.
    pub fn run(&mut self, owner: u64, op: LF::Input) -> (r: Result<LF::Output, usize>)
        requires
            old(self).wf(),
            old(self).boxes().len() < usize::MAX,
        ensures
            final(self).wf(),
            final(self).same_config(*old(self)),
            final(self).carried_on(*old(self)),
            final(self).boxes().len() == old(self).boxes().len() || final(self).published(*old(self), owner, op),
            r is Err ==> final(self).published(*old(self), owner, op),
            old(self).spec_retry_threshold() == 0 ==> final(self).published(*old(self), owner, op),
            r matches Err(id) ==> id == old(self).boxes().len(),
            r matches Err(id) ==> !(final(self).boxes()[id as int].state() is Completed),
            r is Err && final(self).versions_below_max() ==> final(self).progress() >= old(self).progress() + old(
                self,
            ).spec_help_bound(),
            old(self).spec_retry_threshold() == 0 && old(self).spec_help_bound() == 0 ==> r == Err::<LF::Output, usize>(
                old(self).boxes().len() as usize,
            ),
            r is Ok && final(self).boxes().len() > old(self).boxes().len() ==> (final(self).boxes()[old(
                self,
            ).boxes().len() as int].state() matches OperationState::Completed(o) && cloned(o, r->Ok_0)),
    {
        let mut retry: usize = 0;
        while retry < self.retry_threshold
            invariant
                self.wf(),
                self.same_config(*old(self)),
                self.carried_on(*old(self)),
                self.boxes().len() == old(self).boxes().len(),
                self.queue().len() <= old(self).queue().len(),
            decreases self.retry_threshold - retry,
        {
            let ghost before_help = *self;
            self.help_first();
            proof {
                Self::lemma_carried_on_trans(*old(self), before_help, *self);
            }
            let attempts = retry + 1;
            let mut contention = LF::ContentionMeasure::with_threshold(self.contention_threshold);
            let cas = self.lf.generator(&op, &mut contention);
            match fast_path_next(attempts, self.retry_threshold, contention.detected(), None) {
                FastPathDecision::Continue => {},
                _ => {
                    break;
                },
            }
            let result = self.cas_execute(&cas, &mut contention);
            match fast_path_next(attempts, self.retry_threshold, contention.detected(), None) {
                FastPathDecision::Continue => {},
                _ => {
                    break;
                },
            }
            let wrapped = self.lf.wrap_up(result, &cas, &mut contention);
            let accepted = Some(wrapped.is_ok());
            match fast_path_next(attempts, self.retry_threshold, contention.detected(), accepted) {
                FastPathDecision::Finish => {
                    match wrapped {
                        Ok(outcome) => {
                            return Ok(outcome);
                        },
                        Err(()) => {},
                    }
                },
                FastPathDecision::Retry => {},
                _ => {
                    break;
                },
            }
            retry = attempts;
        }
        let ghost before_publish = *self;
        let id = self.publish(owner, op);
        let ghost after_publish = *self;
        proof {
            Self::lemma_versions_grow(*old(self), before_publish);
            assert(after_publish.boxes().drop_last() == before_publish.boxes());
        }
        let mut steps: usize = 0;
        loop
            invariant
                self.wf(),
                self.same_config(*old(self)),
                self.carried_on(*old(self)),
                self.carried_on(before_publish),
                self.boxes().len() == id + 1,
                id == old(self).boxes().len(),
                self.published(*old(self), owner, op),
                after_publish.wf(),
                after_publish.boxes().len() == id + 1,
                self.carried_on(after_publish),
                after_publish.progress() >= old(self).progress(),
                after_publish.boxes()[id as int].state() is PreCAS,
                steps <= self.help_bound,
                steps == 0 ==> *self == after_publish,
                self.versions_below_max() ==> self.progress() >= after_publish.progress() + steps,
            decreases self.help_bound - steps,
        {
            let record = self.boxes[id].load();
            match &record.state {
                OperationState::Completed(output) => {
                    return Ok(output.clone());
                },
                _ => {},
            }
            if steps >= self.help_bound {
                return Err(id);
            }
            let ghost before_help = *self;
            proof {
                assert(!(before_help.boxes()[id as int].state() is Completed));
                assert(before_help.queue().contains(id));
            }
            self.help_first();
            proof {
                Self::lemma_carried_on_trans(*old(self), before_help, *self);
                Self::lemma_carried_on_trans(before_publish, before_help, *self);
                Self::lemma_carried_on_trans(after_publish, before_help, *self);
                assert(self.boxes()[id as int].continues(before_help.boxes()[id as int]));
                Self::lemma_versions_grow(before_help, *self);
                if self.versions_below_max() {
                    let h = before_help.queue()[0] as int;
                    assert(before_help.boxes()[h].spec_version() <= self.boxes()[h].spec_version());
                    if before_help.boxes()[h].state() is Completed {
                        assert(self.queue() == before_help.queue().drop_first());
                    } else {
                        assert(self.boxes()[h].spec_version() < u64::MAX);
                        lemma_version_total_grows(before_help.boxes(), self.boxes(), h);
                    }
                }
            }
            steps = steps + 1;
        }
    }

    /// The number of boxes published so far.
    pub fn box_count(&self) -> (r: usize)
        ensures
            r == self.boxes().len(),
    {
        self.boxes.len()
    }

    /// The box numbered `id`.
    pub fn box_at(&self, id: usize) -> (r: &OperationRecordBox<LF>)
        requires
            id < self.boxes().len(),
        ensures
            *r == self.boxes()[id as int],
    {
        &self.boxes[id]
    }

    /// The queue of published operations.
    pub fn help_queue(&self) -> (r: &HelpQueue)
        ensures
            r@ == self.queue(),
    {
        &self.help_queue
    }

    /// The algorithm being run.
    pub fn algorithm(&self) -> (r: &LF)
        ensures
            *r == self.spec_algorithm(),
    {
        &self.lf
    }

    /// Executes the steps in order and stops at the first that fails, whose
    /// index it returns; that failure is recorded in `contention`.
    pub fn cas_execute(&self, descriptors: &LF::Cases, contention: &mut LF::ContentionMeasure) -> (r: Result<(), usize>)
        ensures
            descriptors.steps().len() == 0 ==> r is Ok,
            r matches Err(i) ==> i < descriptors.steps().len(),
            r is Ok ==> final(contention).failures() == old(contention).failures(),
            r is Err ==> final(contention).failures() == bumped(old(contention).failures()),
            final(contention).threshold() == old(contention).threshold(),
    {
        let steps = descriptors.as_slice();
        let len = steps.len();
        if len == 0 {
            return Ok(());
        }
        let mut i: usize = 0;
        loop
            invariant
                i < len,
                len == steps@.len(),
                steps@ == descriptors.steps(),
                *contention == *old(contention),
            decreases len - i,
        {
            let outcome = steps[i].execute();
            match after_step(i, len, outcome) {
                Some(r) => {
                    if r.is_err() {
                        contention.detect();
                    }
                    return r;
                },
                None => {
                    i = i + 1;
                },
            }
        }
    }
}

} // verus!
