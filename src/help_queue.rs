use vstd::prelude::*;
use std::collections::VecDeque;

verus! {

/// FIFO of published operations, each named by the index of its box.
pub struct HelpQueue {
    entries: VecDeque<usize>,
}

impl View for HelpQueue {
    type V = Seq<usize>;

    closed spec fn view(&self) -> Seq<usize> {
        self.entries@
    }
}

impl HelpQueue {
    pub fn new() -> (r: HelpQueue)
        ensures
            r@ == Seq::<usize>::empty(),
    {
        HelpQueue { entries: VecDeque::new() }
    }

    /// Appends `help` at the tail; always succeeds.
    pub fn enqueue(&mut self, help: usize)
        ensures
            final(self)@ == old(self)@.push(help),
    {
        self.entries.push_back(help);
    }

    /// The entry at the head, if any.
    pub fn peek(&self) -> (r: Option<usize>)
        ensures
            r == (if self@.len() > 0 { Some(self@[0]) } else { None::<usize> }),
    {
        if self.entries.len() > 0 {
            Some(self.entries[0])
        } else {
            None
        }
    }

    /// Removes `completed` when it is at the head and its operation was
    /// observed completed; otherwise fails and changes nothing.
    pub fn try_remove_front(&mut self, completed: usize, observed_completed: bool) -> (r: Result<(), ()>)
        ensures
            r is Ok <==> (observed_completed && old(self)@.len() > 0 && old(self)@[0] == completed),
            r is Ok ==> final(self)@ == old(self)@.drop_first(),
            r is Err ==> final(self)@ == old(self)@,
    {
        if observed_completed && self.entries.len() > 0 && self.entries[0] == completed {
            let _ = self.entries.pop_front();
            Ok(())
        } else {
            Err(())
        }
    }

    pub fn len(&self) -> (r: usize)
        ensures
            r == self@.len(),
    {
        self.entries.len()
    }
}

} // verus!
