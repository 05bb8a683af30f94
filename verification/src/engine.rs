use vstd::prelude::*;

use crate::cache::CachedObjectTable;
use crate::eserror::EsError;
use crate::jsval::JsValue;

verus! {

/// The settlement state of an engine-resident promise.
pub enum PromiseState {
    Pending,
    Resolved(JsValue),
    Rejected(JsValue),
}

/// One engine-resident promise: its state and the reactions registered
/// against it, each reaction a host-chosen token, kept in registration
/// order.  A reaction is moved into the job queue when it becomes due and
/// from there into the fired log, so each fires exactly once.
pub struct PromiseRec {
    pub state: PromiseState,
    pub then_reactions: Vec<u64>,
    pub catch_reactions: Vec<u64>,
    pub finally_reactions: Vec<u64>,
}

/// Which host callback a promise reaction stands for.
#[derive(Clone, Copy, PartialEq, Eq, Structural, Debug)]
pub enum ReactionKind {
    OnResolve,
    OnReject,
    OnFinally,
}

/// A due or fired promise reaction: the host-chosen reaction token, the
/// promise it was registered on, and which callback it stands for.  For a
/// resolve or reject reaction the delivered value is that promise's
/// settlement value; a finally reaction carries no value.
#[derive(Clone, Copy, PartialEq, Eq, Structural, Debug)]
pub struct ReactionJob {
    pub token: u64,
    pub obj: u64,
    pub kind: ReactionKind,
}

/// The reactions that become due when a promise settles: the matching
/// one-argument reactions first, in registration order, then the finally
/// reactions.
pub open spec fn due_jobs(tokens: Seq<u64>, finals: Seq<u64>, obj: u64, kind: ReactionKind) -> Seq<
    ReactionJob,
> {
    tokens.map_values(|t: u64| ReactionJob { token: t, obj, kind }) + finals.map_values(
        |t: u64| ReactionJob { token: t, obj, kind: ReactionKind::OnFinally },
    )
}

/// What a promise settles to when it settles as `resolved` with `value`.
pub open spec fn settled_state(value: JsValue, resolved: bool) -> PromiseState {
    if resolved {
        PromiseState::Resolved(value)
    } else {
        PromiseState::Rejected(value)
    }
}

/// The full effect of settling promise `obj` with `value`: a pending
/// promise settles, its matching reactions and its finally reactions become
/// due in registration order, and every pending job is run; a promise that
/// has already settled is left untouched apart from the job drain.
pub open spec fn settle_effect(
    pre: EngineInstance,
    obj: u64,
    value: JsValue,
    resolved: bool,
    post: EngineInstance,
) -> bool {
    let rec = pre.promises@[obj as int];
    &&& post.contexts == pre.contexts
    &&& post.cache == pre.cache
    &&& post.installed == pre.installed
    &&& post.jobs@.len() == 0
    &&& if rec.state is Pending {
        &&& post.promises@.len() == pre.promises@.len()
        &&& forall|k: int|
            0 <= k < pre.promises@.len() && k != obj ==> post.promises@[k] == pre.promises@[k]
        &&& post.promises@[obj as int].state == settled_state(value, resolved)
        &&& post.promises@[obj as int].then_reactions@ == Seq::<u64>::empty()
        &&& post.promises@[obj as int].catch_reactions@ == Seq::<u64>::empty()
        &&& post.promises@[obj as int].finally_reactions@ == Seq::<u64>::empty()
        &&& post.fired@ == pre.fired@ + pre.jobs@ + due_jobs(
            if resolved {
                rec.then_reactions@
            } else {
                rec.catch_reactions@
            },
            rec.finally_reactions@,
            obj,
            if resolved {
                ReactionKind::OnResolve
            } else {
                ReactionKind::OnReject
            },
        )
    } else {
        &&& post.promises == pre.promises
        &&& post.fired@ == pre.fired@ + pre.jobs@
    }
}

/// The engine instance owned by the worker thread: the named execution
/// contexts, the cached object table, the promise table, and the engine's
/// microtask job queue together with the log of fired promise reactions.
/// Promise handles index the promise table directly; promises live as long
/// as the engine.
pub struct EngineInstance {
    pub contexts: Vec<String>,
    pub cache: CachedObjectTable,
    pub promises: Vec<PromiseRec>,
    pub jobs: Vec<ReactionJob>,
    pub fired: Vec<ReactionJob>,
    /// Host functions installed for script code: namespace path, function
    /// name, and the token of the host closure, in installation order.
    /// An installed function is reachable from the main context and from
    /// every context that exists or is created after the installation.
    pub installed: Vec<(Vec<String>, String, u64)>,
}

/// Whether the host function installed under `token` is reachable from
/// context `ctx` at namespace path `ns` under the name `name`: it is
/// whenever the context exists, because installed functions apply to the
/// main context and to every context that exists or is created after the
/// installation.
pub open spec fn fn_installed(
    e: EngineInstance,
    ctx: Seq<char>,
    ns: Seq<Seq<char>>,
    name: Seq<char>,
    token: u64,
) -> bool {
    e.has_context_spec(ctx) && e.installed_view().contains((ns, name, token))
}

/// The identifier of the implicit main context, which is created with the
/// runtime and lives for the runtime's lifetime.
pub open spec fn main_context_id() -> Seq<char> {
    "__main__"@
}

pub fn main_context_id_str() -> (r: &'static str)
    ensures
        r@ == main_context_id(),
{
    "__main__"
}

impl EngineInstance {
    /// The context identifiers, in creation order.
    pub open spec fn ctx_ids(&self) -> Seq<Seq<char>> {
        self.contexts@.map_values(|s: String| s@)
    }

    pub open spec fn has_context_spec(&self, id: Seq<char>) -> bool {
        self.ctx_ids().contains(id)
    }

    /// The installed host functions: namespace path, name and closure
    /// token, in installation order.
    pub open spec fn installed_view(&self) -> Seq<(Seq<Seq<char>>, Seq<char>, u64)> {
        self.installed@.map_values(
            |ent: (Vec<String>, String, u64)|
                (ent.0@.map_values(|s: String| s@), ent.1@, ent.2),
        )
    }

    pub open spec fn wf(&self) -> bool {
        &&& self.cache.wf()
        &&& self.ctx_ids().len() > 0
        &&& self.ctx_ids()[0] == main_context_id()
        &&& forall|i: int, j: int|
            0 <= i < j < self.ctx_ids().len() ==> self.ctx_ids()[i] != self.ctx_ids()[j]
    }

    /// A fresh engine: the main context, an empty cached object table, no
    /// promises, no pending jobs, nothing fired.
    pub fn new() -> (e: EngineInstance)
        ensures
            e.wf(),
            e.ctx_ids() =~= seq![main_context_id()],
            e.cache@ == Seq::<(i32, crate::cache::CachedHandle)>::empty(),
            e.cache.next_id_spec() == 0,
            e.promises@.len() == 0,
            e.jobs@.len() == 0,
            e.fired@.len() == 0,
            e.installed@.len() == 0,
    {
        let mut contexts: Vec<String> = Vec::new();
        contexts.push(main_context_id_str().to_string());
        let e = EngineInstance {
            contexts,
            cache: CachedObjectTable::new(),
            promises: Vec::new(),
            jobs: Vec::new(),
            fired: Vec::new(),
            installed: Vec::new(),
        };
        proof {
            assert(e.ctx_ids() =~= seq![main_context_id()]);
        }
        e
    }

    /// Whether a context with this identifier exists.
    pub fn has_context(&self, id: &str) -> (r: bool)
        ensures
            r == self.has_context_spec(id@),
    {
        let mut i: usize = 0;
        while i < self.contexts.len()
            invariant
                i <= self.contexts@.len(),
                forall|k: int| 0 <= k < i ==> #[trigger] self.ctx_ids()[k] != id@,
            decreases self.contexts@.len() - i,
        {
            let c: &String = &self.contexts[i];
            if str_eq(c.as_str(), id) {
                proof {
                    assert(self.ctx_ids()[i as int] == id@);
                }
                return true;
            }
            i = i + 1;
        }
        proof {
            if self.has_context_spec(id@) {
                let k = choose|k: int| 0 <= k < self.ctx_ids().len() && self.ctx_ids()[k] == id@;
                assert(self.ctx_ids()[k] != id@);
            }
        }
        false
    }

    /// Create a named context.  Fails exactly when a context with this
    /// identifier already exists; otherwise the new context is appended and
    /// every existing context is kept.
    pub fn create_context(&mut self, id: &str) -> (r: Result<(), EsError>)
        requires
            old(self).wf(),
        ensures
            final(self).wf(),
            r is Ok <==> !old(self).has_context_spec(id@),
            r is Ok ==> final(self).ctx_ids() == old(self).ctx_ids().push(id@),
            r is Err ==> final(self).contexts == old(self).contexts,
            final(self).cache == old(self).cache,
            final(self).promises == old(self).promises,
            final(self).jobs == old(self).jobs,
            final(self).fired == old(self).fired,
            final(self).installed == old(self).installed,
    {
        if self.has_context(id) {
            Err(EsError::new_str("context already exists"))
        } else {
            self.contexts.push(id.to_string());
            proof {
                assert(self.ctx_ids() =~= old(self).ctx_ids().push(id@));
                assert(self.ctx_ids()[0] == main_context_id());
            }
            Ok(())
        }
    }

    /// Drop a named context.  The main context is never dropped; dropping
    /// an absent identifier is a silent no-op.  Returns whether a context
    /// was removed.
    pub fn drop_context(&mut self, id: &str) -> (removed: bool)
        requires
            old(self).wf(),
        ensures
            final(self).wf(),
            removed == (old(self).has_context_spec(id@) && id@ != main_context_id()),
            !final(self).has_context_spec(id@) || id@ == main_context_id(),
            !removed ==> final(self).contexts == old(self).contexts,
            removed ==> final(self).ctx_ids().len() == old(self).ctx_ids().len() - 1,
            forall|x: Seq<char>|
                x != id@ ==> (final(self).has_context_spec(x) == old(self).has_context_spec(x)),
            final(self).cache == old(self).cache,
            final(self).promises == old(self).promises,
            final(self).jobs == old(self).jobs,
            final(self).fired == old(self).fired,
            final(self).installed == old(self).installed,
    {
        let ghost ids0 = old(self).ctx_ids();
        if str_eq(id, main_context_id_str()) {
            proof {
                assert(id@ == main_context_id());
            }
            return false;
        }
        let mut i: usize = 1;
        proof {
            assert(ids0[0] == main_context_id());
            assert(ids0[0] != id@);
        }
        while i < self.contexts.len()
            invariant
                old(self).wf(),
                ids0 == old(self).ctx_ids(),
                self == old(self),
                id@ != main_context_id(),
                1 <= i <= ids0.len(),
                forall|k: int| 0 <= k < i ==> #[trigger] ids0[k] != id@,
            decreases ids0.len() - i,
        {
            let c: &String = &self.contexts[i];
            if str_eq(c.as_str(), id) {
                proof {
                    assert(self.ctx_ids()[i as int] == id@);
                }
                self.contexts.remove(i);
                proof {
                    assert(self.ctx_ids() =~= ids0.subrange(0, i as int) + ids0.skip(i as int + 1));
                    lemma_ids_removed(ids0, id@, i as int);
                    assert(self.ctx_ids()[0] == main_context_id());
                }
                return true;
            }
            i = i + 1;
        }
        proof {
            if self.has_context_spec(id@) {
                let k = choose|k: int| 0 <= k < ids0.len() && ids0[k] == id@;
                assert(ids0[k] != id@);
            }
        }
        false
    }

    /// How many promises the engine holds.
    pub fn promise_count(&self) -> (n: usize)
        ensures
            n == self.promises@.len(),
    {
        self.promises.len()
    }

    /// Allocate a fresh pending promise and hand back its engine object
    /// handle.
    pub fn new_promise_obj(&mut self) -> (obj: u64)
        requires
            old(self).wf(),
            old(self).promises@.len() < u64::MAX,
        ensures
            final(self).wf(),
            obj == old(self).promises@.len(),
            final(self).promises@.len() == old(self).promises@.len() + 1,
            forall|k: int|
                0 <= k < old(self).promises@.len() ==> final(self).promises@[k] == old(
                    self,
                ).promises@[k],
            final(self).promises@[obj as int].state is Pending,
            final(self).promises@[obj as int].then_reactions@ =~= Seq::<u64>::empty(),
            final(self).promises@[obj as int].catch_reactions@ =~= Seq::<u64>::empty(),
            final(self).promises@[obj as int].finally_reactions@ =~= Seq::<u64>::empty(),
            final(self).contexts == old(self).contexts,
            final(self).cache == old(self).cache,
            final(self).jobs == old(self).jobs,
            final(self).fired == old(self).fired,
            final(self).installed == old(self).installed,
    {
        let obj = self.promises.len() as u64;
        self.promises.push(
            PromiseRec {
                state: PromiseState::Pending,
                then_reactions: Vec::new(),
                catch_reactions: Vec::new(),
                finally_reactions: Vec::new(),
            },
        );
        obj
    }

    /// Run all pending engine microtask jobs: each moves to the fired log,
    /// in order, exactly once.
    pub fn run_pending_jobs(&mut self)
        requires
            old(self).wf(),
        ensures
            final(self).wf(),
            final(self).fired@ == old(self).fired@ + old(self).jobs@,
            final(self).jobs@.len() == 0,
            final(self).contexts == old(self).contexts,
            final(self).cache == old(self).cache,
            final(self).promises == old(self).promises,
            final(self).installed == old(self).installed,
    {
        let mut pending: Vec<ReactionJob> = Vec::new();
        core::mem::swap(&mut self.jobs, &mut pending);
        self.fired.append(&mut pending);
    }

    /// Settle a promise as resolved.  If it is still pending, its state
    /// becomes resolved with this value, its then and finally reactions
    /// become due in registration order, and all pending jobs are run; a
    /// promise that has already settled is left untouched.
    pub fn resolve_promise(&mut self, obj: u64, value: JsValue)
        requires
            old(self).wf(),
            obj < old(self).promises@.len(),
        ensures
            final(self).wf(),
            settle_effect(*old(self), obj, value, true, *final(self)),
    {
        self.settle_promise(obj, value, true)
    }

    /// Settle a promise as rejected: as [`Self::resolve_promise`], with the
    /// catch reactions becoming due instead of the then reactions.
    pub fn reject_promise(&mut self, obj: u64, value: JsValue)
        requires
            old(self).wf(),
            obj < old(self).promises@.len(),
        ensures
            final(self).wf(),
            settle_effect(*old(self), obj, value, false, *final(self)),
    {
        self.settle_promise(obj, value, false)
    }

    /// Install a host function, by closure token, under a namespace path
    /// and name: appended to the installation list, so it is reachable
    /// from every context that exists now or is created later.
    pub fn install_function(&mut self, namespace: Vec<String>, name: String, token: u64)
        requires
            old(self).wf(),
        ensures
            final(self).wf(),
            final(self).installed_view() == old(self).installed_view().push(
                (namespace@.map_values(|s: String| s@), name@, token),
            ),
            final(self).contexts == old(self).contexts,
            final(self).cache == old(self).cache,
            final(self).promises == old(self).promises,
            final(self).jobs == old(self).jobs,
            final(self).fired == old(self).fired,
    {
        let ghost entry_view = (namespace@.map_values(|s: String| s@), name@, token);
        self.installed.push((namespace, name, token));
        proof {
            assert(final(self).installed_view() =~= old(self).installed_view().push(entry_view));
        }
    }

    fn settle_promise(&mut self, obj: u64, value: JsValue, resolved: bool)
        requires
            old(self).wf(),
            obj < old(self).promises@.len(),
        ensures
            final(self).wf(),
            settle_effect(*old(self), obj, value, resolved, *final(self)),
    {
        let total = self.promises.len();
        let idx = obj as usize;
        proof {
            assert((obj as int) < (total as int));
            assert(idx as int == obj as int);
        }
        let is_pending = matches!(self.promises[idx].state, PromiseState::Pending);
        if !is_pending {
            self.run_pending_jobs();
            return ;
        }
        let ghost rec0 = old(self).promises@[obj as int];
        let ghost jobs0 = old(self).jobs@;
        let kind = if resolved {
            ReactionKind::OnResolve
        } else {
            ReactionKind::OnReject
        };
        let ghost tokens0 = if resolved {
            rec0.then_reactions@
        } else {
            rec0.catch_reactions@
        };
        let n = if resolved {
            self.promises[idx].then_reactions.len()
        } else {
            self.promises[idx].catch_reactions.len()
        };
        let mut i: usize = 0;
        while i < n
            invariant
                old(self).wf(),
                obj < old(self).promises@.len(),
                idx == obj as usize,
                idx as int == obj as int,
                rec0 == old(self).promises@[obj as int],
                jobs0 == old(self).jobs@,
                kind == (if resolved {
                    ReactionKind::OnResolve
                } else {
                    ReactionKind::OnReject
                }),
                tokens0 == (if resolved {
                    rec0.then_reactions@
                } else {
                    rec0.catch_reactions@
                }),
                n == tokens0.len(),
                i <= n,
                self.contexts == old(self).contexts,
                self.cache == old(self).cache,
                self.promises == old(self).promises,
                self.fired == old(self).fired,
                self.installed == old(self).installed,
                self.jobs@.len() == jobs0.len() + i,
                forall|k: int| 0 <= k < jobs0.len() ==> #[trigger] self.jobs@[k] == jobs0[k],
                forall|k: int|
                    0 <= k < i ==> #[trigger] self.jobs@[jobs0.len() + k] == (ReactionJob {
                        token: tokens0[k],
                        obj,
                        kind,
                    }),
            decreases n - i,
        {
            let t = if resolved {
                self.promises[idx].then_reactions[i]
            } else {
                self.promises[idx].catch_reactions[i]
            };
            self.jobs.push(ReactionJob { token: t, obj, kind });
            i = i + 1;
        }
        let ghost finals0 = rec0.finally_reactions@;
        let m = self.promises[idx].finally_reactions.len();
        let mut j: usize = 0;
        while j < m
            invariant
                old(self).wf(),
                obj < old(self).promises@.len(),
                idx == obj as usize,
                idx as int == obj as int,
                rec0 == old(self).promises@[obj as int],
                jobs0 == old(self).jobs@,
                kind == (if resolved {
                    ReactionKind::OnResolve
                } else {
                    ReactionKind::OnReject
                }),
                tokens0 == (if resolved {
                    rec0.then_reactions@
                } else {
                    rec0.catch_reactions@
                }),
                finals0 == rec0.finally_reactions@,
                m == finals0.len(),
                j <= m,
                self.contexts == old(self).contexts,
                self.cache == old(self).cache,
                self.promises == old(self).promises,
                self.fired == old(self).fired,
                self.installed == old(self).installed,
                self.jobs@.len() == jobs0.len() + tokens0.len() + j,
                forall|k: int| 0 <= k < jobs0.len() ==> #[trigger] self.jobs@[k] == jobs0[k],
                forall|k: int|
                    0 <= k < tokens0.len() ==> #[trigger] self.jobs@[jobs0.len() + k]
                        == (ReactionJob { token: tokens0[k], obj, kind }),
                forall|k: int|
                    0 <= k < j ==> #[trigger] self.jobs@[jobs0.len() + tokens0.len() + k]
                        == (ReactionJob {
                        token: finals0[k],
                        obj,
                        kind: ReactionKind::OnFinally,
                    }),
            decreases m - j,
        {
            let t = self.promises[idx].finally_reactions[j];
            self.jobs.push(ReactionJob { token: t, obj, kind: ReactionKind::OnFinally });
            j = j + 1;
        }
        self.promises[idx] = PromiseRec {
            state: if resolved {
                PromiseState::Resolved(value)
            } else {
                PromiseState::Rejected(value)
            },
            then_reactions: Vec::new(),
            catch_reactions: Vec::new(),
            finally_reactions: Vec::new(),
        };
        proof {
            let due = due_jobs(tokens0, finals0, obj, kind);
            assert forall|x: int| 0 <= x < self.jobs@.len() implies self.jobs@[x] == (jobs0
                + due)[x] by {
                if x < jobs0.len() {
                    assert(self.jobs@[x] == jobs0[x]);
                } else if x < jobs0.len() + tokens0.len() {
                    let k = x - jobs0.len();
                    assert(self.jobs@[jobs0.len() + k] == (ReactionJob {
                        token: tokens0[k],
                        obj,
                        kind,
                    }));
                } else {
                    let k = x - jobs0.len() - tokens0.len();
                    assert(self.jobs@[jobs0.len() + tokens0.len() + k] == (ReactionJob {
                        token: finals0[k],
                        obj,
                        kind: ReactionKind::OnFinally,
                    }));
                }
            }
            assert(self.jobs@ =~= jobs0 + due_jobs(tokens0, finals0, obj, kind));
        }
        self.run_pending_jobs();
        proof {
            assert(self.fired@ =~= old(self).fired@ + jobs0 + due_jobs(
                tokens0,
                finals0,
                obj,
                kind,
            ));
        }
    }
}

/// Removing one occurrence from a duplicate-free sequence of identifiers
/// removes that identifier and keeps every other.
proof fn lemma_ids_removed(ids: Seq<Seq<char>>, id: Seq<char>, k: int)
    requires
        0 <= k < ids.len(),
        ids[k] == id,
        forall|i: int, j: int| 0 <= i < j < ids.len() ==> ids[i] != ids[j],
    ensures
        !(ids.subrange(0, k) + ids.skip(k + 1)).contains(id),
        forall|x: Seq<char>|
            x != id ==> ((ids.subrange(0, k) + ids.skip(k + 1)).contains(x) == ids.contains(x)),
        forall|i: int, j: int|
            0 <= i < j < (ids.subrange(0, k) + ids.skip(k + 1)).len() ==> #[trigger] (ids.subrange(
                0,
                k,
            ) + ids.skip(k + 1))[i] != #[trigger] (ids.subrange(0, k) + ids.skip(k + 1))[j],
{
    let rest = ids.subrange(0, k) + ids.skip(k + 1);
    assert forall|i: int| 0 <= i < rest.len() implies #[trigger] rest[i] == (if i < k {
        ids[i]
    } else {
        ids[i + 1]
    }) by {}
    if rest.contains(id) {
        let i = choose|i: int| 0 <= i < rest.len() && rest[i] == id;
        if i < k {
            assert(ids[i] != ids[k]);
        } else {
            assert(ids[k] != ids[i + 1]);
        }
    }
    assert forall|x: Seq<char>| x != id implies (rest.contains(x) == ids.contains(x)) by {
        if rest.contains(x) {
            let i = choose|i: int| 0 <= i < rest.len() && rest[i] == x;
            if i < k {
                assert(ids[i] == x);
            } else {
                assert(ids[i + 1] == x);
            }
        }
        if ids.contains(x) {
            let i = choose|i: int| 0 <= i < ids.len() && ids[i] == x;
            if i < k {
                assert(rest[i] == x);
            } else {
                assert(i != k);
                assert(rest[i - 1] == x);
            }
        }
    }
}

/// String equality by content.
pub(crate) fn str_eq(a: &str, b: &str) -> (r: bool)
    ensures
        r == (a@ == b@),
{
    let sa = a.to_string();
    let sb = b.to_string();
    sa == sb
}

} // verus!
