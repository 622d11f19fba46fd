use vstd::prelude::*;
use crate::capability::NormalisedLockFree;

verus! {

/// Where one logical operation stands.
pub enum OperationState<C, O> {
    PreCAS,
    ExecuteCas(C),
    PostCAS(C, Result<(), usize>),
    Completed(O),
}

/// The successor that a helper computed from one observed state.
pub enum Change<C, O> {
    /// `generator` produced these steps.
    Generated(C),
    /// The steps were executed with this outcome.
    Executed(Result<(), usize>),
    /// `wrap_up` accepted the outcome and gave this output.
    Finished(O),
    /// `wrap_up` asked for the operation to start again.
    Restart,
}

/// A successor paired with the version of the snapshot it was computed from.
pub struct Proposal<C, O> {
    pub version: u64,
    pub change: Change<C, O>,
}

/// The state that `change` leads to from `s`, if it applies there.
pub open spec fn successor<C, O>(s: OperationState<C, O>, change: Change<C, O>) -> Option<
    OperationState<C, O>,
> {
    match (s, change) {
        (OperationState::PreCAS, Change::Generated(l)) => Some(OperationState::ExecuteCas(l)),
        (OperationState::ExecuteCas(l), Change::Executed(r)) => Some(OperationState::PostCAS(l, r)),
        (OperationState::PostCAS(_, _), Change::Finished(o)) => Some(OperationState::Completed(o)),
        (OperationState::PostCAS(_, _), Change::Restart) => Some(OperationState::PreCAS),
        _ => None,
    }
}

/// The transitions of the state graph: forward, except for the restart from
/// `PostCAS`; the steps of `ExecuteCas` are carried into `PostCAS` unchanged.
pub open spec fn legal_step<C, O>(a: OperationState<C, O>, b: OperationState<C, O>) -> bool {
    match (a, b) {
        (OperationState::PreCAS, OperationState::ExecuteCas(_)) => true,
        (OperationState::ExecuteCas(l), OperationState::PostCAS(m, _)) => l == m,
        (OperationState::PostCAS(_, _), OperationState::Completed(_)) => true,
        (OperationState::PostCAS(_, _), OperationState::PreCAS) => true,
        _ => false,
    }
}

/// A sequence of states that starts at `PreCAS` and moves by legal steps.
pub open spec fn legal_path<C, O>(h: Seq<OperationState<C, O>>) -> bool {
    &&& h.len() > 0
    &&& h[0] == OperationState::<C, O>::PreCAS
    &&& forall|i: int| 0 <= i < h.len() - 1 ==> #[trigger] legal_step(h[i], h[i + 1])
}

impl<C, O> OperationState<C, O> {
    pub fn is_completed(&self) -> (r: bool)
        ensures
            r == (self is Completed),
    {
        match self {
            OperationState::Completed(_) => true,
            _ => false,
        }
    }
}

/// One snapshot of an operation: who published it, its input and its state.
pub struct OperationRecord<LF: NormalisedLockFree> {
    pub owner: u64,
    pub input: LF::Input,
    pub state: OperationState<LF::Cases, LF::Output>,
}

/// The cell that holds the current record of one operation. It changes only by
/// compare-and-replace against a version tag, which grows by one with every
/// accepted change, so that a stale snapshot can never be mistaken for the
/// current one.
pub struct OperationRecordBox<LF: NormalisedLockFree> {
    record: OperationRecord<LF>,
    version: u64,
    history: Ghost<Seq<OperationState<LF::Cases, LF::Output>>>,
}

impl<LF: NormalisedLockFree> OperationRecordBox<LF> {
    pub closed spec fn state(&self) -> OperationState<LF::Cases, LF::Output> {
        self.record.state
    }

    pub closed spec fn spec_input(&self) -> LF::Input {
        self.record.input
    }

    pub closed spec fn spec_owner(&self) -> u64 {
        self.record.owner
    }

    pub closed spec fn spec_version(&self) -> u64 {
        self.version
    }

    /// Every state the box has held, oldest first.
    pub closed spec fn history(&self) -> Seq<OperationState<LF::Cases, LF::Output>> {
        self.history@
    }

    /// The states held so far form a legal path ending at the current state,
    /// one state per version.
    pub open spec fn wf(&self) -> bool {
        &&& legal_path(self.history())
        &&& self.history().len() == self.spec_version() + 1
        &&& self.history().last() == self.state()
    }

    /// This box is `earlier` carried on: the same operation, a history that
    /// extends the earlier one, and nothing changed once it was completed.
    pub open spec fn continues(&self, earlier: Self) -> bool {
        &&& self.spec_input() == earlier.spec_input()
        &&& self.spec_owner() == earlier.spec_owner()
        &&& earlier.history().len() <= self.history().len()
        &&& forall|k: int| 0 <= k < earlier.history().len() ==> #[trigger] self.history()[k] == earlier.history()[k]
        &&& earlier.state() is Completed ==> *self == earlier
    }

    /// Whether a compare-and-replace with `p` would be accepted.
    pub open spec fn accepts(&self, p: Proposal<LF::Cases, LF::Output>) -> bool {
        &&& p.version == self.spec_version()
        &&& self.spec_version() < u64::MAX
        &&& successor(self.state(), p.change) is Some
    }

    /// Helping is idempotent: of the successors that helpers compute from one
    /// snapshot, the first to be committed is accepted (unless the version
    /// tag is exhausted), and once one is accepted every other computed from
    /// that snapshot is rejected.
    pub proof fn lemma_one_transition_per_step(
        self,
        p: Proposal<LF::Cases, LF::Output>,
        q: Proposal<LF::Cases, LF::Output>,
        later: Self,
    )
        requires
            self.wf(),
            p.version == self.spec_version(),
            q.version == self.spec_version(),
            successor(self.state(), p.change) is Some,
            later.spec_version() == self.spec_version() + 1,
        ensures
            self.spec_version() < u64::MAX ==> self.accepts(p),
            !later.accepts(q),
    {
    }

    /// The states a box has held form a legal path through the state graph,
    /// from `PreCAS` to its current state, with no transition skipped.
    pub proof fn lemma_observed_path_is_legal(self)
        requires
            self.wf(),
        ensures
            self.history()[0] == OperationState::<LF::Cases, LF::Output>::PreCAS,
            self.history().last() == self.state(),
            forall|i: int|
                0 <= i < self.history().len() - 1 ==> #[trigger] legal_step(self.history()[i], self.history()[i + 1]),
    {
    }

    /// A new box whose operation has not started.
    pub fn new(owner: u64, input: LF::Input) -> (r: Self)
        ensures
            r.wf(),
            r.state() == OperationState::<LF::Cases, LF::Output>::PreCAS,
            r.spec_version() == 0,
            r.spec_input() == input,
            r.spec_owner() == owner,
    {
        let ghost start = seq![OperationState::PreCAS];
        OperationRecordBox {
            record: OperationRecord { owner, input, state: OperationState::PreCAS },
            version: 0,
            history: Ghost(start),
        }
    }

    /// The current record.
    pub fn load(&self) -> (r: &OperationRecord<LF>)
        ensures
            r.state == self.state(),
            r.input == self.spec_input(),
            r.owner == self.spec_owner(),
    {
        &self.record
    }

    /// The version tag of the current record.
    pub fn version(&self) -> (r: u64)
        ensures
            r == self.spec_version(),
    {
        self.version
    }

    /// Replaces the current state by the successor in `p` when `p` was
    /// computed from the current version; otherwise changes nothing.
    pub fn compare_and_replace(&mut self, p: Proposal<LF::Cases, LF::Output>) -> (r: Result<(), ()>)
        requires
            old(self).wf(),
        ensures
            final(self).wf(),
            r is Ok <==> old(self).accepts(p),
            r is Ok ==> final(self).state() == successor(old(self).state(), p.change)->Some_0,
            r is Ok ==> final(self).spec_version() == old(self).spec_version() + 1,
            r is Ok ==> final(self).history() == old(self).history().push(final(self).state()),
            r is Err ==> *final(self) == *old(self),
            final(self).spec_input() == old(self).spec_input(),
            final(self).spec_owner() == old(self).spec_owner(),
    {
        if p.version != self.version || self.version == u64::MAX {
            return Err(());
        }
        let ghost before = self.record.state;
        let mut current = OperationState::PreCAS;
        std::mem::swap(&mut current, &mut self.record.state);
        let next = match (current, p.change) {
            (OperationState::PreCAS, Change::Generated(l)) => OperationState::ExecuteCas(l),
            (OperationState::ExecuteCas(l), Change::Executed(r)) => OperationState::PostCAS(l, r),
            (OperationState::PostCAS(_, _), Change::Finished(o)) => OperationState::Completed(o),
            (OperationState::PostCAS(_, _), Change::Restart) => OperationState::PreCAS,
            (other, _) => {
                self.record.state = other;
                return Err(());
            },
        };
        proof {
            assert(legal_step(before, next));
        }
        self.record.state = next;
        self.version = self.version + 1;
        let ghost extended = self.history@.push(next);
        self.history = Ghost(extended);
        proof {
            let h = self.history@;
            assert forall|i: int| 0 <= i < h.len() - 1 implies #[trigger] legal_step(h[i], h[i + 1]) by {
                if i < h.len() - 2 {
                    assert(h[i] == old(self).history()[i]);
                    assert(h[i + 1] == old(self).history()[i + 1]);
                }
            }
        }
        Ok(())
    }
}

} // verus!
