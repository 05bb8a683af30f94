use vstd::prelude::*;

use crate::esvalue::EsValueFacade;

verus! {

/// One unit of work for the worker thread that owns the engine.  Host
/// closures are carried by an opaque token that the embedding pairs with
/// the closure it will run; the other variants are the engine operations
/// the runtime itself queues.
pub enum EsTask {
    /// An opaque host closure, identified by a host-chosen token.
    Host(u64),
    /// Run the engine's garbage collector.
    Gc,
    /// Create a named context.
    CreateContext(String),
    /// Drop a named context.
    DropContext(String),
    /// Release the cached object table entry with this identifier: the
    /// cleanup a dropped facade schedules.
    ConsumeCached(i32),
    /// Invoke a cached engine function with these arguments, discarding
    /// the call's result.
    InvokeCached { id: i32, args: Vec<EsValueFacade> },
    /// Install a host function, by closure token, at a namespace path,
    /// for the main context and every context created thereafter.
    SetFunction { namespace: Vec<String>, name: String, token: u64 },
}

/// The FIFO task queue feeding the single worker thread.  Each submission
/// gets the next sequence number, so the sequence numbers record
/// queue-arrival order; the worker always takes the lowest one first.
pub struct EventQueue {
    entries: Vec<(u64, EsTask)>,
    next_seq: u64,
}

impl View for EventQueue {
    type V = Seq<(u64, EsTask)>;

    closed spec fn view(&self) -> Seq<(u64, EsTask)> {
        self.entries@
    }
}

impl EventQueue {
    pub closed spec fn next_seq_spec(&self) -> int {
        self.next_seq as int
    }

    pub open spec fn wf(&self) -> bool {
        &&& forall|i: int, j: int|
            0 <= i < j < self@.len() ==> #[trigger] self@[i].0 < #[trigger] self@[j].0
        &&& forall|i: int| 0 <= i < self@.len() ==> #[trigger] self@[i].0 < self.next_seq_spec()
    }

    pub fn new() -> (q: EventQueue)
        ensures
            q.wf(),
            q@ == Seq::<(u64, EsTask)>::empty(),
            q.next_seq_spec() == 0,
    {
        EventQueue { entries: Vec::new(), next_seq: 0 }
    }

    pub fn todo_count(&self) -> (n: usize)
        ensures
            n == self@.len(),
    {
        self.entries.len()
    }

    /// The sequence number the next submission will get.
    pub fn next_seq_nr(&self) -> (n: u64)
        ensures
            n == self.next_seq_spec(),
    {
        self.next_seq
    }

    /// Enqueue a task at the back, under the next sequence number.
    pub fn add_task(&mut self, task: EsTask) -> (seq_nr: u64)
        requires
            old(self).wf(),
            old(self).next_seq_spec() < u64::MAX,
        ensures
            final(self).wf(),
            seq_nr == old(self).next_seq_spec(),
            final(self)@ == old(self)@.push((seq_nr, task)),
            final(self).next_seq_spec() == old(self).next_seq_spec() + 1,
    {
        let ghost q0 = old(self)@;
        let seq_nr = self.next_seq;
        self.entries.push((seq_nr, task));
        self.next_seq = self.next_seq + 1;
        proof {
            assert forall|i: int, j: int| 0 <= i < j < self@.len() implies #[trigger] self@[i].0
                < #[trigger] self@[j].0 by {
                if j < q0.len() {
                    assert(self@[i] == q0[i] && self@[j] == q0[j]);
                } else {
                    assert(self@[j] == (seq_nr, task));
                    assert(self@[i] == q0[i]);
                    assert(q0[i].0 < old(self).next_seq_spec());
                }
            }
        }
        seq_nr
    }

    /// Take the oldest queued task, if any.
    pub fn pop_front(&mut self) -> (r: Option<(u64, EsTask)>)
        requires
            old(self).wf(),
        ensures
            final(self).wf(),
            final(self).next_seq_spec() == old(self).next_seq_spec(),
            old(self)@.len() == 0 ==> r is None && *final(self) == *old(self),
            old(self)@.len() > 0 ==> r == Option::Some(old(self)@[0]) && final(self)@ == old(
                self,
            )@.drop_first(),
    {
        if self.entries.len() == 0 {
            None
        } else {
            let entry = self.entries.remove(0);
            proof {
                assert(final(self)@ =~= old(self)@.drop_first());
            }
            Some(entry)
        }
    }
}

} // verus!
