use vstd::prelude::*;

use crate::cache::{cache_contains, cache_lookup, CachedHandle};
use crate::engine::{main_context_id, EngineInstance, PromiseState};
use crate::eserror::{EsError, EsTimeoutError};
use crate::esvalue::{
    es_val, facade_matches, facade_valid, handle_obj, EsVal, EsValueFacade, FacadeValue,
};
use crate::jsval::{js_ref_nodes, js_supported, js_val};
use crate::queue::{EsTask, EventQueue};

verus! {

/// What the worker reports when a task has run.
#[derive(Clone, Copy, PartialEq, Eq, Structural, Debug)]
pub enum TaskOutcome {
    Done,
    ContextCreated,
    ContextExisted,
}

/// The sequence numbers of queued entries, in queue order.
pub open spec fn seqs_of(entries: Seq<(u64, EsTask)>) -> Seq<u64> {
    entries.map_values(|e: (u64, EsTask)| e.0)
}

/// The tasks of queued entries, in queue order.
pub open spec fn tasks_of(entries: Seq<(u64, EsTask)>) -> Seq<EsTask> {
    entries.map_values(|e: (u64, EsTask)| e.1)
}

/// How one task transforms the engine: the worker executes the task's
/// operation and then runs all pending engine jobs, so promise reactions
/// queued by one task are flushed before the next task observes engine
/// state.  Host tasks and cached-function invocations leave the modelled
/// engine state unchanged: their work happens in host code or inside
/// script objects outside this model.
pub open spec fn task_step(
    pre: EngineInstance,
    task: EsTask,
    post: EngineInstance,
    out: TaskOutcome,
) -> bool {
    &&& post.jobs@.len() == 0
    &&& post.fired@ == pre.fired@ + pre.jobs@
    &&& post.promises == pre.promises
    &&& match task {
        EsTask::Host(_) => post.contexts == pre.contexts && post.cache == pre.cache
            && post.installed == pre.installed && out is Done,
        EsTask::Gc => post.contexts == pre.contexts && post.cache == pre.cache && post.installed
            == pre.installed && out is Done,
        EsTask::InvokeCached { .. } => post.contexts == pre.contexts && post.cache == pre.cache
            && post.installed == pre.installed && out is Done,
        EsTask::SetFunction { namespace, name, token } => {
            &&& post.contexts == pre.contexts
            &&& post.cache == pre.cache
            &&& post.installed_view() == pre.installed_view().push(
                (namespace@.map_values(|s: String| s@), name@, token),
            )
            &&& out is Done
        },
        EsTask::CreateContext(id) => {
            &&& post.cache == pre.cache
            &&& post.installed == pre.installed
            &&& if pre.has_context_spec(id@) {
                post.contexts == pre.contexts && out is ContextExisted
            } else {
                post.ctx_ids() == pre.ctx_ids().push(id@) && out is ContextCreated
            }
        },
        EsTask::DropContext(id) => {
            &&& post.cache == pre.cache
            &&& post.installed == pre.installed
            &&& out is Done
            &&& !post.has_context_spec(id@) || id@ == main_context_id()
            &&& forall|x: Seq<char>|
                x != id@ ==> post.has_context_spec(x) == pre.has_context_spec(x)
            &&& if pre.has_context_spec(id@) && id@ != main_context_id() {
                post.ctx_ids().len() == pre.ctx_ids().len() - 1
            } else {
                post.contexts == pre.contexts
            }
        },
        EsTask::ConsumeCached(cid) => {
            &&& post.contexts == pre.contexts
            &&& post.installed == pre.installed
            &&& post.cache.next_id_spec() == pre.cache.next_id_spec()
            &&& cache_lookup(post.cache@, cid) == Option::<CachedHandle>::None
            &&& forall|x: i32|
                x != cid ==> cache_lookup(post.cache@, x) == cache_lookup(pre.cache@, x)
            &&& if cache_contains(pre.cache@, cid) {
                post.cache@.len() == pre.cache@.len() - 1
            } else {
                post.cache@ == pre.cache@
            }
            &&& out is Done
        },
    }
}

/// The engine states a run of tasks can pass through, task by task in
/// order.
pub open spec fn run_steps(pre: EngineInstance, tasks: Seq<EsTask>, post: EngineInstance) -> bool
    decreases tasks.len(),
{
    if tasks.len() == 0 {
        post == pre
    } else {
        exists|mid: EngineInstance, out: TaskOutcome|
            #[trigger] task_step(pre, tasks[0], mid, out) && run_steps(mid, tasks.drop_first(), post)
    }
}

/// An empty run leaves the engine as it was.
pub proof fn lemma_run_steps_empty(pre: EngineInstance, post: EngineInstance)
    requires
        run_steps(pre, Seq::<EsTask>::empty(), post),
    ensures
        post == pre,
{
}

/// A run followed by one more step is a run of the extended task list.
pub proof fn lemma_run_steps_snoc(
    pre: EngineInstance,
    tasks: Seq<EsTask>,
    mid: EngineInstance,
    task: EsTask,
    post: EngineInstance,
    out: TaskOutcome,
)
    requires
        run_steps(pre, tasks, mid),
        task_step(mid, task, post, out),
    ensures
        run_steps(pre, tasks.push(task), post),
    decreases tasks.len(),
{
    if tasks.len() == 0 {
        assert(mid == pre);
        assert(tasks.push(task)[0] == task);
        assert(tasks.push(task).drop_first() =~= Seq::<EsTask>::empty());
        assert(task_step(pre, tasks.push(task)[0], post, out) && run_steps(
            post,
            tasks.push(task).drop_first(),
            post,
        ));
    } else {
        let (m0, o0) = choose|m0: EngineInstance, o0: TaskOutcome|
            #[trigger] task_step(pre, tasks[0], m0, o0) && run_steps(m0, tasks.drop_first(), mid);
        lemma_run_steps_snoc(m0, tasks.drop_first(), mid, task, post, out);
        assert(tasks.push(task)[0] == tasks[0]);
        assert(tasks.push(task).drop_first() =~= tasks.drop_first().push(task));
        assert(task_step(pre, tasks.push(task)[0], m0, o0) && run_steps(
            m0,
            tasks.push(task).drop_first(),
            post,
        ));
    }
}

/// First outcome recorded under a sequence number.
pub open spec fn outcomes_lookup(s: Seq<(u64, TaskOutcome)>, seq_nr: u64) -> Option<TaskOutcome>
    decreases s.len(),
{
    if s.len() == 0 {
        Option::None
    } else if s[0].0 == seq_nr {
        Option::Some(s[0].1)
    } else {
        outcomes_lookup(s.drop_first(), seq_nr)
    }
}

/// The runtime state shared behind the public runtime handle: the task
/// queue, the engine owned by the worker, the serviced history (sequence
/// numbers in execution order), and the recorded outcome of each serviced
/// task, for redemption by future-style submitters.
pub struct EsRuntimeInner {
    pub event_queue: EventQueue,
    pub engine: EngineInstance,
    pub history: Vec<u64>,
    pub outcomes: Vec<(u64, TaskOutcome)>,
}

impl EsRuntimeInner {
    pub open spec fn wf(&self) -> bool {
        &&& self.event_queue.wf()
        &&& self.engine.wf()
        &&& forall|i: int, j: int|
            0 <= i < j < self.history@.len() ==> #[trigger] self.history@[i]
                < #[trigger] self.history@[j]
        &&& forall|i: int, k: int|
            0 <= i < self.history@.len() && 0 <= k < self.event_queue@.len()
                ==> #[trigger] self.history@[i] < #[trigger] self.event_queue@[k].0
        &&& forall|i: int|
            0 <= i < self.history@.len() ==> #[trigger] self.history@[i]
                < self.event_queue.next_seq_spec()
    }

    pub fn new() -> (rt: EsRuntimeInner)
        ensures
            rt.wf(),
            rt.event_queue@ == Seq::<(u64, EsTask)>::empty(),
            rt.event_queue.next_seq_spec() == 0,
            rt.engine.ctx_ids() =~= seq![main_context_id()],
            rt.engine.cache@ == Seq::<(i32, CachedHandle)>::empty(),
            rt.engine.cache.next_id_spec() == 0,
            rt.engine.promises@.len() == 0,
            rt.engine.jobs@.len() == 0,
            rt.engine.fired@.len() == 0,
            rt.history@ == Seq::<u64>::empty(),
            rt.outcomes@ == Seq::<(u64, TaskOutcome)>::empty(),
    {
        EsRuntimeInner {
            event_queue: EventQueue::new(),
            engine: EngineInstance::new(),
            history: Vec::new(),
            outcomes: Vec::new(),
        }
    }

    /// Submit a task to the queue, fire and forget: the task is appended
    /// under the next sequence number, behind everything already queued.
    pub fn add_task(&mut self, task: EsTask)
        requires
            old(self).wf(),
            old(self).event_queue.next_seq_spec() < u64::MAX,
        ensures
            final(self).wf(),
            final(self).event_queue@ == old(self).event_queue@.push(
                ((old(self).event_queue.next_seq_spec() as u64), task),
            ),
            final(self).event_queue.next_seq_spec() == old(self).event_queue.next_seq_spec() + 1,
            final(self).engine == old(self).engine,
            final(self).history == old(self).history,
            final(self).outcomes == old(self).outcomes,
    {
        let _ = self.event_queue.add_task(task);
    }

    /// Submit a task and hand back its sequence number as a redeemable
    /// ticket: the task runs unconditionally even if the ticket is
    /// discarded; only its recorded outcome would go unread.
    pub fn async_task(&mut self, task: EsTask) -> (seq_nr: u64)
        requires
            old(self).wf(),
            old(self).event_queue.next_seq_spec() < u64::MAX,
        ensures
            final(self).wf(),
            seq_nr == old(self).event_queue.next_seq_spec(),
            final(self).event_queue@ == old(self).event_queue@.push((seq_nr, task)),
            final(self).event_queue.next_seq_spec() == old(self).event_queue.next_seq_spec() + 1,
            final(self).engine == old(self).engine,
            final(self).history == old(self).history,
            final(self).outcomes == old(self).outcomes,
    {
        self.event_queue.add_task(task)
    }

    /// Submit engine work asynchronously; same queue discipline as
    /// [`Self::async_task`].
    pub fn add_to_event_queue(&mut self, task: EsTask) -> (seq_nr: u64)
        requires
            old(self).wf(),
            old(self).event_queue.next_seq_spec() < u64::MAX,
        ensures
            final(self).wf(),
            seq_nr == old(self).event_queue.next_seq_spec(),
            final(self).event_queue@ == old(self).event_queue@.push((seq_nr, task)),
            final(self).event_queue.next_seq_spec() == old(self).event_queue.next_seq_spec() + 1,
            final(self).engine == old(self).engine,
            final(self).history == old(self).history,
            final(self).outcomes == old(self).outcomes,
    {
        self.async_task(task)
    }

    /// Submission from inside a task already running on the worker: the
    /// queue discipline is the same, only the submitting side differs.
    pub fn add_to_event_queue_from_worker(&mut self, task: EsTask) -> (seq_nr: u64)
        requires
            old(self).wf(),
            old(self).event_queue.next_seq_spec() < u64::MAX,
        ensures
            final(self).wf(),
            seq_nr == old(self).event_queue.next_seq_spec(),
            final(self).event_queue@ == old(self).event_queue@.push((seq_nr, task)),
            final(self).event_queue.next_seq_spec() == old(self).event_queue.next_seq_spec() + 1,
            final(self).engine == old(self).engine,
            final(self).history == old(self).history,
            final(self).outcomes == old(self).outcomes,
    {
        self.async_task(task)
    }

    /// Run the oldest queued task, if any: it leaves the queue, its
    /// sequence number enters the history, its outcome is recorded, and
    /// the engine takes exactly one task step.
    pub fn service_next(&mut self) -> (r: Option<TaskOutcome>)
        requires
            old(self).wf(),
        ensures
            final(self).wf(),
            old(self).event_queue@.len() == 0 ==> r is None && *final(self) == *old(self),
            old(self).event_queue@.len() > 0 ==> {
                &&& r is Some
                &&& final(self).event_queue@ == old(self).event_queue@.drop_first()
                &&& final(self).event_queue.next_seq_spec() == old(
                    self,
                ).event_queue.next_seq_spec()
                &&& final(self).history@ == old(self).history@.push(old(self).event_queue@[0].0)
                &&& final(self).outcomes@ == old(self).outcomes@.push(
                    (old(self).event_queue@[0].0, r->Some_0),
                )
                &&& task_step(
                    old(self).engine,
                    old(self).event_queue@[0].1,
                    final(self).engine,
                    r->Some_0,
                )
            },
    {
        let popped = self.event_queue.pop_front();
        match popped {
            Option::None => None,
            Option::Some((seq_nr, task)) => {
                let out = match task {
                    EsTask::Host(_) => {
                        self.engine.run_pending_jobs();
                        TaskOutcome::Done
                    },
                    EsTask::Gc => {
                        self.engine.run_pending_jobs();
                        TaskOutcome::Done
                    },
                    EsTask::InvokeCached { .. } => {
                        self.engine.run_pending_jobs();
                        TaskOutcome::Done
                    },
                    EsTask::CreateContext(id) => {
                        let res = self.engine.create_context(id.as_str());
                        self.engine.run_pending_jobs();
                        match res {
                            Result::Ok(_) => TaskOutcome::ContextCreated,
                            Result::Err(_) => TaskOutcome::ContextExisted,
                        }
                    },
                    EsTask::DropContext(id) => {
                        let _ = self.engine.drop_context(id.as_str());
                        self.engine.run_pending_jobs();
                        TaskOutcome::Done
                    },
                    EsTask::ConsumeCached(cid) => {
                        let _ = self.engine.cache.consume(cid);
                        self.engine.run_pending_jobs();
                        TaskOutcome::Done
                    },
                    EsTask::SetFunction { namespace, name, token } => {
                        self.engine.install_function(namespace, name, token);
                        self.engine.run_pending_jobs();
                        TaskOutcome::Done
                    },
                };
                self.history.push(seq_nr);
                self.outcomes.push((seq_nr, out));
                Some(out)
            },
        }
    }

    /// Run every queued task, oldest first: the history is extended by the
    /// queued sequence numbers in submission order, and the engine passes
    /// through exactly the queued tasks' steps.
    pub fn service_all(&mut self)
        requires
            old(self).wf(),
        ensures
            final(self).wf(),
            final(self).event_queue@.len() == 0,
            final(self).event_queue.next_seq_spec() == old(self).event_queue.next_seq_spec(),
            final(self).history@ == old(self).history@ + seqs_of(old(self).event_queue@),
            final(self).outcomes@.len() == old(self).outcomes@.len() + old(self).event_queue@.len(),
            forall|k: int|
                0 <= k < old(self).outcomes@.len() ==> #[trigger] final(self).outcomes@[k] == old(
                    self,
                ).outcomes@[k],
            forall|k: int|
                0 <= k < old(self).event_queue@.len() ==> #[trigger] final(self).outcomes@[old(
                    self,
                ).outcomes@.len() + k].0 == old(self).event_queue@[k].0,
            run_steps(old(self).engine, tasks_of(old(self).event_queue@), final(self).engine),
    {
        let ghost q0 = old(self).event_queue@;
        let ghost h0 = old(self).history@;
        let ghost o0 = old(self).outcomes@;
        let ghost e0 = old(self).engine;
        let total = self.event_queue.todo_count();
        let mut i: usize = 0;
        proof {
            assert(q0.take(0) =~= Seq::<(u64, EsTask)>::empty());
            assert(tasks_of(q0.take(0)) =~= Seq::<EsTask>::empty());
            assert(seqs_of(q0.take(0)) =~= Seq::<u64>::empty());
            assert(h0 + seqs_of(q0.take(0)) =~= h0);
            assert(q0.skip(0) =~= q0);
        }
        while i < total
            invariant
                self.wf(),
                q0 == old(self).event_queue@,
                h0 == old(self).history@,
                o0 == old(self).outcomes@,
                e0 == old(self).engine,
                total == q0.len(),
                i <= total,
                self.event_queue@ == q0.skip(i as int),
                self.event_queue.next_seq_spec() == old(self).event_queue.next_seq_spec(),
                self.history@ == h0 + seqs_of(q0.take(i as int)),
                self.outcomes@.len() == o0.len() + i,
                forall|k: int| 0 <= k < o0.len() ==> #[trigger] self.outcomes@[k] == o0[k],
                forall|k: int|
                    0 <= k < i ==> #[trigger] self.outcomes@[o0.len() + k].0 == q0[k].0,
                run_steps(e0, tasks_of(q0.take(i as int)), self.engine),
            decreases total - i,
        {
            let ghost engine_pre = self.engine;
            let r = self.service_next();
            proof {
                assert(q0.skip(i as int)[0] == q0[i as int]);
                assert(q0.skip(i as int).drop_first() =~= q0.skip(i as int + 1));
                lemma_run_steps_snoc(
                    e0,
                    tasks_of(q0.take(i as int)),
                    engine_pre,
                    q0[i as int].1,
                    self.engine,
                    r->Some_0,
                );
                assert(tasks_of(q0.take(i as int)).push(q0[i as int].1) =~= tasks_of(
                    q0.take(i as int + 1),
                ));
                assert(seqs_of(q0.take(i as int)).push(q0[i as int].0) =~= seqs_of(
                    q0.take(i as int + 1),
                ));
                assert(self.history@ =~= h0 + seqs_of(q0.take(i as int + 1)));
            }
            i = i + 1;
        }
        proof {
            assert(q0.take(total as int) =~= q0);
        }
    }

    /// Submit a task and run it to completion: everything queued ahead of
    /// it runs first, in submission order, then the task itself, and its
    /// outcome comes back to the caller.
    ///
    /// In the embedding, a blocking submission made from inside a task
    /// already running on the worker deadlocks — the worker cannot service
    /// the queue while it blocks on itself.  That is a documented
    /// reentrancy hazard of the blocking form: work scheduled from inside
    /// a task uses the asynchronous forms instead.
    pub fn exe_task(&mut self, task: EsTask) -> (out: TaskOutcome)
        requires
            old(self).wf(),
            old(self).event_queue.next_seq_spec() < u64::MAX,
        ensures
            final(self).wf(),
            final(self).event_queue@.len() == 0,
            final(self).event_queue.next_seq_spec() == old(self).event_queue.next_seq_spec()
                + 1,
            final(self).history@ == old(self).history@ + seqs_of(old(self).event_queue@) + seq![
                (old(self).event_queue.next_seq_spec() as u64),
            ],
            final(self).outcomes@.len() == old(self).outcomes@.len() + old(
                self,
            ).event_queue@.len() + 1,
            forall|k: int|
                0 <= k < old(self).outcomes@.len() ==> #[trigger] final(self).outcomes@[k] == old(
                    self,
                ).outcomes@[k],
            forall|k: int|
                0 <= k < old(self).event_queue@.len() ==> #[trigger] final(self).outcomes@[old(
                    self,
                ).outcomes@.len() + k].0 == old(self).event_queue@[k].0,
            final(self).outcomes@[final(self).outcomes@.len() - 1] == (
                ((old(self).event_queue.next_seq_spec()) as u64),
                out,
            ),
            exists|mid: EngineInstance|
                #[trigger] run_steps(old(self).engine, tasks_of(old(self).event_queue@), mid)
                    && task_step(mid, task, final(self).engine, out),
    {
        self.service_all();
        let ghost mid0 = self.engine;
        let seq_nr = self.event_queue.add_task(task);
        let r = self.service_next();
        proof {
            assert(run_steps(old(self).engine, tasks_of(old(self).event_queue@), mid0)
                && task_step(mid0, task, self.engine, r->Some_0));
            assert(self.history@ =~= old(self).history@ + seqs_of(old(self).event_queue@)
                + seq![(old(self).event_queue.next_seq_spec() as u64)]);
        }
        match r {
            Option::Some(out) => out,
            Option::None => unreached(),
        }
    }

    /// Synchronous engine work: same discipline as [`Self::exe_task`].
    pub fn add_to_event_queue_sync(&mut self, task: EsTask) -> (out: TaskOutcome)
        requires
            old(self).wf(),
            old(self).event_queue.next_seq_spec() < u64::MAX,
        ensures
            final(self).wf(),
            final(self).event_queue@.len() == 0,
            final(self).event_queue.next_seq_spec() == old(self).event_queue.next_seq_spec()
                + 1,
            final(self).history@ == old(self).history@ + seqs_of(old(self).event_queue@) + seq![
                (old(self).event_queue.next_seq_spec() as u64),
            ],
            final(self).outcomes@.len() == old(self).outcomes@.len() + old(
                self,
            ).event_queue@.len() + 1,
            forall|k: int|
                0 <= k < old(self).outcomes@.len() ==> #[trigger] final(self).outcomes@[k] == old(
                    self,
                ).outcomes@[k],
            forall|k: int|
                0 <= k < old(self).event_queue@.len() ==> #[trigger] final(self).outcomes@[old(
                    self,
                ).outcomes@.len() + k].0 == old(self).event_queue@[k].0,
            final(self).outcomes@[final(self).outcomes@.len() - 1] == (
                ((old(self).event_queue.next_seq_spec()) as u64),
                out,
            ),
            exists|mid: EngineInstance|
                #[trigger] run_steps(old(self).engine, tasks_of(old(self).event_queue@), mid)
                    && task_step(mid, task, final(self).engine, out),
    {
        self.exe_task(task)
    }

    /// Create a named context, serialized with all other engine access:
    /// everything already queued runs first; creation fails exactly when
    /// the identifier is then already taken.
    pub fn create_context(&mut self, id: &str) -> (r: Result<(), EsError>)
        requires
            old(self).wf(),
            old(self).event_queue.next_seq_spec() < u64::MAX,
        ensures
            final(self).wf(),
            final(self).event_queue@.len() == 0,
            final(self).event_queue.next_seq_spec() == old(self).event_queue.next_seq_spec()
                + 1,
            exists|mid: EngineInstance|
                {
                    &&& #[trigger] run_steps(
                        old(self).engine,
                        tasks_of(old(self).event_queue@),
                        mid,
                    )
                    &&& (r is Ok <==> !mid.has_context_spec(id@))
                    &&& r is Ok ==> final(self).engine.ctx_ids() == mid.ctx_ids().push(id@)
                    &&& r is Err ==> final(self).engine.contexts == mid.contexts
                    &&& final(self).engine.cache == mid.cache
                    &&& final(self).engine.promises == mid.promises
                    &&& final(self).engine.installed == mid.installed
                },
    {
        let task = EsTask::CreateContext(id.to_string());
        let out = self.exe_task(task);
        match out {
            TaskOutcome::ContextCreated => Ok(()),
            TaskOutcome::ContextExisted => Err(EsError::new_str("context already exists")),
            TaskOutcome::Done => unreached(),
        }
    }

    /// Drop a named context, serialized with all other engine access.
    /// Dropping an absent context, or the main context, is a silent no-op.
    pub fn drop_context(&mut self, id: &str)
        requires
            old(self).wf(),
            old(self).event_queue.next_seq_spec() < u64::MAX,
        ensures
            final(self).wf(),
            final(self).event_queue@.len() == 0,
            final(self).event_queue.next_seq_spec() == old(self).event_queue.next_seq_spec()
                + 1,
            !final(self).engine.has_context_spec(id@) || id@ == main_context_id(),
            exists|mid: EngineInstance|
                {
                    &&& #[trigger] run_steps(
                        old(self).engine,
                        tasks_of(old(self).event_queue@),
                        mid,
                    )
                    &&& forall|x: Seq<char>|
                        x != id@ ==> final(self).engine.has_context_spec(x)
                            == mid.has_context_spec(x)
                    &&& final(self).engine.cache == mid.cache
                    &&& final(self).engine.promises == mid.promises
                    &&& final(self).engine.installed == mid.installed
                },
    {
        let task = EsTask::DropContext(id.to_string());
        let _ = self.exe_task(task);
    }

    /// Install a host function, by closure token, at a namespace path,
    /// serialized with all other engine access: everything already queued
    /// runs first, then the function is added to the installation list, so
    /// it is reachable from the main context and from every context that
    /// exists or is created after this call.
    pub fn set_function(&mut self, namespace: Vec<String>, name: String, token: u64) -> (r: Result<
        (),
        EsError,
    >)
        requires
            old(self).wf(),
            old(self).event_queue.next_seq_spec() < u64::MAX,
        ensures
            final(self).wf(),
            r is Ok,
            final(self).event_queue@.len() == 0,
            final(self).event_queue.next_seq_spec() == old(self).event_queue.next_seq_spec()
                + 1,
            forall|ctx: Seq<char>|
                final(self).engine.has_context_spec(ctx) ==> crate::engine::fn_installed(
                    final(self).engine,
                    ctx,
                    namespace@.map_values(|s: String| s@),
                    name@,
                    token,
                ),
            exists|mid: EngineInstance|
                {
                    &&& #[trigger] run_steps(
                        old(self).engine,
                        tasks_of(old(self).event_queue@),
                        mid,
                    )
                    &&& final(self).engine.contexts == mid.contexts
                    &&& final(self).engine.cache == mid.cache
                    &&& final(self).engine.promises == mid.promises
                    &&& final(self).engine.installed_view() == mid.installed_view().push(
                        (namespace@.map_values(|s: String| s@), name@, token),
                    )
                },
    {
        let ghost entry_view = (namespace@.map_values(|s: String| s@), name@, token);
        let task = EsTask::SetFunction { namespace, name, token };
        let _ = self.exe_task(task);
        proof {
            let n = self.engine.installed_view().len();
            assert(self.engine.installed_view()[n - 1] == entry_view);
            assert(self.engine.installed_view().contains(entry_view));
        }
        Ok(())
    }

    /// The recorded outcome of a serviced task, by its ticket.
    pub fn outcome_for(&self, seq_nr: u64) -> (r: Option<TaskOutcome>)
        ensures
            r == outcomes_lookup(self.outcomes@, seq_nr),
    {
        proof {
            assert(self.outcomes@.skip(0) =~= self.outcomes@);
        }
        let mut i: usize = 0;
        while i < self.outcomes.len()
            invariant
                i <= self.outcomes@.len(),
                outcomes_lookup(self.outcomes@.skip(i as int), seq_nr) == outcomes_lookup(
                    self.outcomes@,
                    seq_nr,
                ),
            decreases self.outcomes@.len() - i,
        {
            let entry = self.outcomes[i];
            proof {
                assert(self.outcomes@.skip(i as int)[0] == self.outcomes@[i as int]);
                assert(self.outcomes@.skip(i as int).drop_first() =~= self.outcomes@.skip(
                    i as int + 1,
                ));
            }
            if entry.0 == seq_nr {
                return Some(entry.1);
            }
            i = i + 1;
        }
        proof {
            assert(self.outcomes@.skip(i as int).len() == 0);
        }
        None
    }
}

/// FIFO law: the worker services tasks in exactly the order they were
/// submitted.  The history lists serviced sequence numbers in execution
/// order and is strictly increasing, and every still-pending task carries
/// a higher sequence number than everything already serviced — so no task
/// ever overtakes an earlier submission.
pub proof fn lemma_fifo_order(rt: EsRuntimeInner)
    requires
        rt.wf(),
    ensures
        forall|i: int, j: int|
            0 <= i < j < rt.history@.len() ==> #[trigger] rt.history@[i]
                < #[trigger] rt.history@[j],
        forall|i: int, k: int|
            0 <= i < rt.history@.len() && 0 <= k < rt.event_queue@.len()
                ==> #[trigger] rt.history@[i] < #[trigger] rt.event_queue@[k].0,
{
}

/// Single-writer law: task executions are totally ordered — each serviced
/// task occupies its own position in one strictly increasing history, so
/// no two executions overlap.  Exclusive ownership of the runtime value
/// enforces the confinement itself: every operation that touches the
/// engine takes the runtime by exclusive reference, so the type system
/// rules out a second concurrent writer.
pub proof fn lemma_single_writer(rt: EsRuntimeInner)
    requires
        rt.wf(),
    ensures
        forall|i: int, j: int|
            0 <= i < rt.history@.len() && 0 <= j < rt.history@.len() && i != j
                ==> #[trigger] rt.history@[i] != #[trigger] rt.history@[j],
{
    assert forall|i: int, j: int|
        0 <= i < rt.history@.len() && 0 <= j < rt.history@.len() && i != j implies #[trigger] rt
        .history@[i] != #[trigger] rt.history@[j] by {
        if i < j {
            assert(rt.history@[i] < rt.history@[j]);
        } else {
            assert(rt.history@[j] < rt.history@[i]);
        }
    }
}

/// Number of processors available to the process.
/// Relies on num_cpus::get, which always returns at least 1.
#[verifier::external_body]
fn cpu_count() -> (n: usize)
    ensures
        n >= 1,
{
    num_cpus::get()
}

/// The helper pool: a thread pool for blocking or CPU-bound host work that
/// never touches engine state.  It is built with at least two workers;
/// helper work that must feed a result back into the engine re-enters
/// through the task queue.
pub struct HelperPool {
    workers: usize,
    pending: Vec<u64>,
}

impl HelperPool {
    pub closed spec fn workers_spec(&self) -> int {
        self.workers as int
    }

    pub closed spec fn pending_spec(&self) -> Seq<u64> {
        self.pending@
    }

    pub open spec fn wf(&self) -> bool {
        self.workers_spec() >= 2
    }

    /// A pool sized to the machine: the number of processors, but never
    /// fewer than two workers.
    pub fn new() -> (p: HelperPool)
        ensures
            p.wf(),
            p.pending_spec() == Seq::<u64>::empty(),
    {
        let cpus = cpu_count();
        let workers = if cpus > 2 {
            cpus
        } else {
            2
        };
        HelperPool { workers, pending: Vec::new() }
    }

    pub fn worker_count(&self) -> (n: usize)
        ensures
            n == self.workers_spec(),
    {
        self.workers
    }

    /// Queue one unit of helper work, by token.
    pub fn add_task(&mut self, token: u64)
        requires
            old(self).wf(),
        ensures
            final(self).wf(),
            final(self).pending_spec() == old(self).pending_spec().push(token),
            final(self).workers_spec() == old(self).workers_spec(),
    {
        self.pending.push(token);
    }

    pub fn todo_count(&self) -> (n: usize)
        ensures
            n == self.pending_spec().len(),
    {
        self.pending.len()
    }
}

/// Builder for a runtime.  Engine tuning (memory limits, garbage
/// collection thresholds, stack sizes, loaders) is pass-through
/// configuration handled by the embedding; the builder here constructs the
/// runtime state itself.
pub struct EsRuntimeBuilder {}

impl EsRuntimeBuilder {
    pub fn new() -> (b: EsRuntimeBuilder) {
        EsRuntimeBuilder {  }
    }

    /// Build a fresh runtime: an empty queue, an engine holding only the
    /// main context, an empty cached object table, and a helper pool of at
    /// least two workers.
    pub fn build(self) -> (rt: EsRuntime)
        ensures
            rt.wf(),
            rt.inner.event_queue@ == Seq::<(u64, EsTask)>::empty(),
            rt.inner.event_queue.next_seq_spec() == 0,
            rt.inner.engine.ctx_ids() =~= seq![main_context_id()],
            rt.inner.engine.cache@ == Seq::<(i32, CachedHandle)>::empty(),
            rt.inner.engine.cache.next_id_spec() == 0,
            rt.inner.engine.promises@.len() == 0,
            rt.inner.history@ == Seq::<u64>::empty(),
    {
        EsRuntime { inner: EsRuntimeInner::new(), helper_pool: HelperPool::new() }
    }
}

/// The public runtime handle: the runtime state plus the helper pool it
/// owns.
pub struct EsRuntime {
    pub inner: EsRuntimeInner,
    pub helper_pool: HelperPool,
}

impl EsRuntime {
    pub open spec fn wf(&self) -> bool {
        &&& self.inner.wf()
        &&& self.helper_pool.wf()
    }

    pub fn builder() -> (b: EsRuntimeBuilder) {
        EsRuntimeBuilder::new()
    }

    /// The number of tasks still queued.
    pub fn get_todo_count(&self) -> (n: usize)
        ensures
            n == self.inner.event_queue@.len(),
    {
        self.inner.event_queue.todo_count()
    }

    /// Access to the runtime state, for callers that read it directly.
    pub fn clone_inner(&self) -> (inner: &EsRuntimeInner)
        ensures
            *inner == self.inner,
    {
        &self.inner
    }

    /// Submit a host task, fire and forget.
    pub fn add_task(&mut self, task: EsTask)
        requires
            old(self).wf(),
            old(self).inner.event_queue.next_seq_spec() < u64::MAX,
        ensures
            final(self).wf(),
            final(self).inner.event_queue@ == old(self).inner.event_queue@.push(
                ((old(self).inner.event_queue.next_seq_spec() as u64), task),
            ),
            final(self).inner.engine == old(self).inner.engine,
            final(self).helper_pool == old(self).helper_pool,
    {
        self.inner.add_task(task);
    }

    /// Submit a task and run it to completion; see
    /// [`EsRuntimeInner::exe_task`].
    pub fn exe_task(&mut self, task: EsTask) -> (out: TaskOutcome)
        requires
            old(self).wf(),
            old(self).inner.event_queue.next_seq_spec() < u64::MAX,
        ensures
            final(self).wf(),
            final(self).inner.event_queue@.len() == 0,
            final(self).inner.event_queue.next_seq_spec() == old(
                self,
            ).inner.event_queue.next_seq_spec() + 1,
            final(self).inner.history@ == old(self).inner.history@ + seqs_of(
                old(self).inner.event_queue@,
            ) + seq![(old(self).inner.event_queue.next_seq_spec() as u64)],
            final(self).inner.outcomes@.len() == old(self).inner.outcomes@.len() + old(
                self,
            ).inner.event_queue@.len() + 1,
            final(self).inner.outcomes@[final(self).inner.outcomes@.len() - 1] == (
                ((old(self).inner.event_queue.next_seq_spec()) as u64),
                out,
            ),
            exists|mid: EngineInstance|
                #[trigger] run_steps(
                    old(self).inner.engine,
                    tasks_of(old(self).inner.event_queue@),
                    mid,
                ) && task_step(mid, task, final(self).inner.engine, out),
            final(self).helper_pool == old(self).helper_pool,
    {
        self.inner.exe_task(task)
    }

    /// Run the garbage collector, serialized with all other engine access.
    /// Collection frees engine-internal storage only: the modelled state —
    /// contexts, cached objects, promises — is untouched.
    pub fn gc_sync(&mut self)
        requires
            old(self).wf(),
            old(self).inner.event_queue.next_seq_spec() < u64::MAX,
        ensures
            final(self).wf(),
            final(self).inner.event_queue@.len() == 0,
            final(self).inner.event_queue.next_seq_spec() == old(
                self,
            ).inner.event_queue.next_seq_spec() + 1,
            exists|mid: EngineInstance|
                {
                    &&& #[trigger] run_steps(
                        old(self).inner.engine,
                        tasks_of(old(self).inner.event_queue@),
                        mid,
                    )
                    &&& final(self).inner.engine.contexts == mid.contexts
                    &&& final(self).inner.engine.cache == mid.cache
                    &&& final(self).inner.engine.promises == mid.promises
                },
    {
        let _ = self.inner.exe_task(EsTask::Gc);
    }

    /// Submit engine work asynchronously; returns the ticket.
    pub fn add_to_event_queue(&mut self, task: EsTask) -> (seq_nr: u64)
        requires
            old(self).wf(),
            old(self).inner.event_queue.next_seq_spec() < u64::MAX,
        ensures
            final(self).wf(),
            seq_nr == old(self).inner.event_queue.next_seq_spec(),
            final(self).inner.event_queue@ == old(self).inner.event_queue@.push((seq_nr, task)),
            final(self).inner.engine == old(self).inner.engine,
            final(self).helper_pool == old(self).helper_pool,
    {
        self.inner.add_to_event_queue(task)
    }

    /// Submit engine work and wait for its outcome.
    pub fn add_to_event_queue_sync(&mut self, task: EsTask) -> (out: TaskOutcome)
        requires
            old(self).wf(),
            old(self).inner.event_queue.next_seq_spec() < u64::MAX,
        ensures
            final(self).wf(),
            final(self).inner.event_queue@.len() == 0,
            final(self).inner.event_queue.next_seq_spec() == old(
                self,
            ).inner.event_queue.next_seq_spec() + 1,
            final(self).inner.outcomes@.len() == old(self).inner.outcomes@.len() + old(
                self,
            ).inner.event_queue@.len() + 1,
            final(self).inner.outcomes@[final(self).inner.outcomes@.len() - 1] == (
                ((old(self).inner.event_queue.next_seq_spec()) as u64),
                out,
            ),
            exists|mid: EngineInstance|
                #[trigger] run_steps(
                    old(self).inner.engine,
                    tasks_of(old(self).inner.event_queue@),
                    mid,
                ) && task_step(mid, task, final(self).inner.engine, out),
            final(self).helper_pool == old(self).helper_pool,
    {
        self.inner.add_to_event_queue_sync(task)
    }

    /// Queue blocking or CPU-bound host work on the helper pool, away from
    /// the engine thread.
    pub fn add_helper_task(&mut self, token: u64)
        requires
            old(self).wf(),
        ensures
            final(self).wf(),
            final(self).helper_pool.pending_spec() == old(self).helper_pool.pending_spec().push(
                token,
            ),
            final(self).inner == old(self).inner,
    {
        self.helper_pool.add_task(token);
    }

    /// Install a host function; see [`EsRuntimeInner::set_function`].
    pub fn set_function(&mut self, namespace: Vec<String>, name: String, token: u64) -> (r: Result<
        (),
        EsError,
    >)
        requires
            old(self).wf(),
            old(self).inner.event_queue.next_seq_spec() < u64::MAX,
        ensures
            final(self).wf(),
            r is Ok,
            final(self).inner.event_queue@.len() == 0,
            final(self).inner.event_queue.next_seq_spec() == old(
                self,
            ).inner.event_queue.next_seq_spec() + 1,
            forall|ctx: Seq<char>|
                final(self).inner.engine.has_context_spec(ctx) ==> crate::engine::fn_installed(
                    final(self).inner.engine,
                    ctx,
                    namespace@.map_values(|s: String| s@),
                    name@,
                    token,
                ),
            exists|mid: EngineInstance|
                {
                    &&& #[trigger] run_steps(
                        old(self).inner.engine,
                        tasks_of(old(self).inner.event_queue@),
                        mid,
                    )
                    &&& final(self).inner.engine.contexts == mid.contexts
                    &&& final(self).inner.engine.cache == mid.cache
                    &&& final(self).inner.engine.promises == mid.promises
                    &&& final(self).inner.engine.installed_view() == mid.installed_view().push(
                        (namespace@.map_values(|s: String| s@), name@, token),
                    )
                },
    {
        self.inner.set_function(namespace, name, token)
    }

    /// Create a context; see [`EsRuntimeInner::create_context`].
    pub fn create_context(&mut self, id: &str) -> (r: Result<(), EsError>)
        requires
            old(self).wf(),
            old(self).inner.event_queue.next_seq_spec() < u64::MAX,
        ensures
            final(self).wf(),
            final(self).inner.event_queue@.len() == 0,
            final(self).inner.event_queue.next_seq_spec() == old(
                self,
            ).inner.event_queue.next_seq_spec() + 1,
            exists|mid: EngineInstance|
                {
                    &&& #[trigger] run_steps(
                        old(self).inner.engine,
                        tasks_of(old(self).inner.event_queue@),
                        mid,
                    )
                    &&& (r is Ok <==> !mid.has_context_spec(id@))
                    &&& r is Ok ==> final(self).inner.engine.ctx_ids() == mid.ctx_ids().push(id@)
                    &&& r is Err ==> final(self).inner.engine.contexts == mid.contexts
                    &&& final(self).inner.engine.cache == mid.cache
                    &&& final(self).inner.engine.promises == mid.promises
                    &&& final(self).inner.engine.installed == mid.installed
                },
    {
        self.inner.create_context(id)
    }

    /// Drop a context; see [`EsRuntimeInner::drop_context`].  Whether or
    /// not the named context existed, the call returns normally, no other
    /// context is affected, and the cached object table, the promises and
    /// the installed functions are untouched.
    pub fn drop_context(&mut self, id: &str)
        requires
            old(self).wf(),
            old(self).inner.event_queue.next_seq_spec() < u64::MAX,
        ensures
            final(self).wf(),
            final(self).inner.event_queue@.len() == 0,
            final(self).inner.event_queue.next_seq_spec() == old(
                self,
            ).inner.event_queue.next_seq_spec() + 1,
            !final(self).inner.engine.has_context_spec(id@) || id@ == main_context_id(),
            exists|mid: EngineInstance|
                {
                    &&& #[trigger] run_steps(
                        old(self).inner.engine,
                        tasks_of(old(self).inner.event_queue@),
                        mid,
                    )
                    &&& forall|x: Seq<char>|
                        x != id@ ==> final(self).inner.engine.has_context_spec(x)
                            == mid.has_context_spec(x)
                    &&& final(self).inner.engine.cache == mid.cache
                    &&& final(self).inner.engine.promises == mid.promises
                    &&& final(self).inner.engine.installed == mid.installed
                },
    {
        self.inner.drop_context(id)
    }
}

/// The promise object a promise facade refers to, through the cached
/// object table.
pub open spec fn awaited_obj(e: EsVal, c: Seq<(i32, CachedHandle)>) -> u64 {
    handle_obj(cache_lookup(c, e->CachedPromise_0))
}

/// The cached object identifier a cached facade carries.
pub open spec fn cached_id_of(e: EsVal) -> i32 {
    match e {
        EsVal::CachedFunction(id) => id,
        EsVal::CachedPromise(id) => id,
        _ => arbitrary(),
    }
}

/// Whether the cached object table has room to marshal the settlement
/// value of this promise.
pub open spec fn await_headroom(rt: EsRuntimeInner, obj: u64) -> bool {
    match rt.engine.promises@[obj as int].state {
        PromiseState::Pending => true,
        PromiseState::Resolved(v) => rt.engine.cache.next_id_spec() + js_ref_nodes(js_val(v))
            <= i32::MAX,
        PromiseState::Rejected(v) => rt.engine.cache.next_id_spec() + js_ref_nodes(js_val(v))
            <= i32::MAX,
    }
}

impl EsValueFacade {
    /// Queue an invocation of a cached engine function with these
    /// arguments, fire and forget: the call runs on the worker in
    /// submission order, its result is discarded, and conversion or call
    /// errors are reported by the embedding rather than propagated —
    /// no channel back to the submitter exists.
    pub fn invoke_function(&self, rt: &mut EsRuntimeInner, args: Vec<EsValueFacade>) -> (r: Result<
        (),
        EsError,
    >)
        requires
            old(rt).wf(),
            es_val(*self) is CachedFunction,
            old(rt).event_queue.next_seq_spec() < u64::MAX,
        ensures
            final(rt).wf(),
            r is Ok,
            final(rt).event_queue@ == old(rt).event_queue@.push(
                (
                    (old(rt).event_queue.next_seq_spec() as u64),
                    EsTask::InvokeCached { id: cached_id_of(es_val(*self)), args },
                ),
            ),
            final(rt).engine == old(rt).engine,
            final(rt).history == old(rt).history,
    {
        let id = self.get_cached_id();
        rt.add_task(EsTask::InvokeCached { id, args });
        Ok(())
    }

    /// Block-wait on a cached promise.  A settled promise delivers its
    /// settlement value as a facade — resolution in the success arm,
    /// rejection in the failure arm; a settlement value the marshaller
    /// does not support is delivered as a message string in the failure
    /// arm.  A promise that has not settled yields the timeout outcome:
    /// while the caller holds the runtime nothing else can settle it, so
    /// the wait could only end by the deadline passing.
    pub fn await_promise_blocking(&self, rt: &mut EsRuntimeInner) -> (r: Result<
        Result<EsValueFacade, EsValueFacade>,
        EsTimeoutError,
    >)
        requires
            old(rt).wf(),
            es_val(*self) is CachedPromise,
            facade_valid(es_val(*self), old(rt).engine.cache@),
            awaited_obj(es_val(*self), old(rt).engine.cache@) < old(rt).engine.promises@.len(),
            await_headroom(*old(rt), awaited_obj(es_val(*self), old(rt).engine.cache@)),
        ensures
            final(rt).wf(),
            final(rt).event_queue == old(rt).event_queue,
            final(rt).history == old(rt).history,
            final(rt).outcomes == old(rt).outcomes,
            final(rt).engine.contexts == old(rt).engine.contexts,
            final(rt).engine.promises == old(rt).engine.promises,
            final(rt).engine.jobs == old(rt).engine.jobs,
            final(rt).engine.fired == old(rt).engine.fired,
            final(rt).engine.installed == old(rt).engine.installed,
            forall|x: i32|
                cache_contains(old(rt).engine.cache@, x) ==> #[trigger] cache_lookup(
                    final(rt).engine.cache@,
                    x,
                ) == cache_lookup(old(rt).engine.cache@, x),
            ({
                let obj = awaited_obj(es_val(*self), old(rt).engine.cache@);
                match old(rt).engine.promises@[obj as int].state {
                    PromiseState::Pending => r is Err && final(rt).engine.cache
                        == old(rt).engine.cache,
                    PromiseState::Resolved(v) => {
                        &&& r is Ok
                        &&& (r->Ok_0 is Ok <==> js_supported(js_val(v)))
                        &&& (r->Ok_0 matches Ok(f) ==> facade_matches(
                            es_val(f),
                            js_val(v),
                            final(rt).engine.cache@,
                        ))
                        &&& (!js_supported(js_val(v)) ==> es_val(r->Ok_0->Err_0) is Str)
                    },
                    PromiseState::Rejected(v) => {
                        &&& r is Ok
                        &&& r->Ok_0 is Err
                        &&& (js_supported(js_val(v)) ==> facade_matches(
                            es_val(r->Ok_0->Err_0),
                            js_val(v),
                            final(rt).engine.cache@,
                        ))
                        &&& (!js_supported(js_val(v)) ==> es_val(r->Ok_0->Err_0) is Str)
                    },
                }
            }),
    {
        let id = self.get_cached_id();
        let handle = rt.engine.cache.with_cached(id);
        let obj: u64 = match handle {
            CachedHandle::Promise(o) => o,
            CachedHandle::Function(_) => unreached(),
        };
        let total = rt.engine.promises.len();
        let idx = obj as usize;
        proof {
            assert((obj as int) < (total as int));
            assert(idx as int == obj as int);
        }
        if matches!(rt.engine.promises[idx].state, PromiseState::Pending) {
            return Err(EsTimeoutError {  });
        }
        let is_resolved = matches!(rt.engine.promises[idx].state, PromiseState::Resolved(_));
        let marshalled = match &rt.engine.promises[idx].state {
            PromiseState::Resolved(v) => EsValueFacade::from_jsval(&mut rt.engine.cache, v),
            PromiseState::Rejected(v) => EsValueFacade::from_jsval(&mut rt.engine.cache, v),
            PromiseState::Pending => unreached(),
        };
        match marshalled {
            Result::Ok(f) => {
                if is_resolved {
                    Ok(Ok(f))
                } else {
                    Ok(Err(f))
                }
            },
            Result::Err(e) => {
                let msg = e.into_message();
                Ok(Err(EsValueFacade { value: FacadeValue::Str(msg) }))
            },
        }
    }

    /// Register host reactions against a cached promise: up to one token
    /// for resolution, one for rejection, and one finally token, each
    /// standing for a host closure the embedding runs when the reaction
    /// fires.  Each reaction fires exactly once; registration on a promise
    /// that has already settled still fires the matching reactions with
    /// the already-known settlement value.
    pub fn add_promise_reactions(
        &self,
        rt: &mut EsRuntimeInner,
        then_token: Option<u64>,
        catch_token: Option<u64>,
        finally_token: Option<u64>,
    ) -> (r: Result<(), EsError>)
        requires
            old(rt).wf(),
            es_val(*self) is CachedPromise,
            facade_valid(es_val(*self), old(rt).engine.cache@),
            awaited_obj(es_val(*self), old(rt).engine.cache@) < old(rt).engine.promises@.len(),
        ensures
            final(rt).wf(),
            r is Ok,
            final(rt).event_queue == old(rt).event_queue,
            final(rt).history == old(rt).history,
            final(rt).outcomes == old(rt).outcomes,
            crate::promises::add_reactions_effect(
                old(rt).engine,
                awaited_obj(es_val(*self), old(rt).engine.cache@),
                then_token,
                catch_token,
                finally_token,
                final(rt).engine,
            ),
    {
        let id = self.get_cached_id();
        let handle = rt.engine.cache.with_cached(id);
        let obj: u64 = match handle {
            CachedHandle::Promise(o) => o,
            CachedHandle::Function(_) => unreached(),
        };
        let obj_ref = crate::jsval::JsValue::Promise(obj);
        crate::promises::add_promise_reactions(
            &mut rt.engine,
            &obj_ref,
            then_token,
            catch_token,
            finally_token,
        )
    }

    /// Release a facade while its runtime is alive: a cached function or
    /// promise facade schedules the asynchronous cleanup task that will
    /// release its table entry; a facade carrying a plain value needs no
    /// cleanup and changes nothing.
    pub fn release(self, rt: &mut EsRuntimeInner)
        requires
            old(rt).wf(),
            old(rt).event_queue.next_seq_spec() < u64::MAX,
        ensures
            final(rt).wf(),
            (es_val(self) is CachedFunction || es_val(self) is CachedPromise)
                ==> final(rt).event_queue@ == old(rt).event_queue@.push(
                (
                    (old(rt).event_queue.next_seq_spec() as u64),
                    EsTask::ConsumeCached(cached_id_of(es_val(self))),
                ),
            ),
            !(es_val(self) is CachedFunction || es_val(self) is CachedPromise) ==> *final(rt)
                == *old(rt),
            final(rt).engine == old(rt).engine,
            final(rt).history == old(rt).history,
    {
        match self.value {
            FacadeValue::CachedFunction(id) => {
                rt.add_task(EsTask::ConsumeCached(id));
            },
            FacadeValue::CachedPromise(id) => {
                rt.add_task(EsTask::ConsumeCached(id));
            },
            _ => {},
        }
    }

    /// Release a facade after its runtime has been torn down: the engine
    /// and its cached object table were already released together, so
    /// there is nothing to clean up and nothing fails.
    pub fn release_after_teardown(self) {
    }
}

} // verus!
