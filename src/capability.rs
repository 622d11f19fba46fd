use vstd::prelude::*;
use crate::contention::ContentionMeasure;

verus! {

/// One compare-and-swap style step against the underlying structure.
///
/// A step may be executed redundantly by racing helpers: a failure means that
/// the step was already satisfied or was superseded.
pub trait CasDescriptor {
    fn execute(&self) -> Result<(), ()>;
}

/// The ordered steps of one attempt, immutable once generated.
pub trait CasDescriptors<D: CasDescriptor> {
    /// The steps, in the order in which they run.
    spec fn steps(&self) -> Seq<D>;

    fn as_slice(&self) -> (r: &[D])
        ensures
            r@ == self.steps(),
    ;
}

impl<D: CasDescriptor> CasDescriptors<D> for Vec<D> {
    open spec fn steps(&self) -> Seq<D> {
        self@
    }

    fn as_slice(&self) -> (r: &[D]) {
        self.as_slice()
    }
}

/// What a lock-free algorithm supplies so that the engine can run it: a way to
/// produce the steps of an operation and a way to interpret their outcome.
pub trait NormalisedLockFree {
    type Input;
    type Output: Clone;
    type Cas: CasDescriptor;
    type Cases: CasDescriptors<Self::Cas>;
    type ContentionMeasure: ContentionMeasure;

    /// Produces the steps that would carry out `op`; reads shared state only.
    fn generator(&self, op: &Self::Input, contention: &mut Self::ContentionMeasure) -> Self::Cases;

    /// Interprets the outcome of executing `performed`: `Ok` with the output
    /// when the operation took effect, `Err` when it has to start again.
    fn wrap_up(
        &self,
        result: Result<(), usize>,
        performed: &Self::Cases,
        contention: &mut Self::ContentionMeasure,
    ) -> Result<Self::Output, ()>;
}

} // verus!
