use vstd::prelude::*;

use crate::engine::{settle_effect, EngineInstance, PromiseRec, PromiseState, ReactionJob,
    ReactionKind};
use crate::eserror::EsError;
use crate::jsval::{js_val, JsVal, JsValue};

verus! {

/// Whether an engine value is a promise-like object, as the classification
/// used by the marshaller and the promise bridge sees it.
pub fn is_promise(value: &JsValue) -> (r: bool)
    ensures
        r == (js_val(*value) is Promise),
{
    matches!(value, JsValue::Promise(_))
}

/// A promise created from host code: the promise object handle together
/// with the right to settle it, as the engine hands out a promise object
/// with its resolve and reject functions.  Returning one of these from a
/// host function lets script code await work the host completes later.
pub struct PromiseRef {
    promise_obj: u64,
}

/// The tokens a single reaction registration hands in: zero or one for
/// each of the three callback slots.
pub open spec fn opt_tokens(o: Option<u64>) -> Seq<u64> {
    match o {
        Option::Some(t) => seq![t],
        Option::None => Seq::empty(),
    }
}

/// The jobs that become due at registration time on an already settled
/// promise.
pub open spec fn opt_jobs(o: Option<u64>, obj: u64, kind: ReactionKind) -> Seq<ReactionJob> {
    match o {
        Option::Some(t) => seq![ReactionJob { token: t, obj, kind }],
        Option::None => Seq::empty(),
    }
}

impl PromiseRef {
    pub closed spec fn obj_spec(&self) -> u64 {
        self.promise_obj
    }

    /// A reference to the promise object itself, for handing to script
    /// code.
    pub fn get_promise_obj_ref(&self) -> (r: JsValue)
        ensures
            js_val(r) == JsVal::Promise(self.obj_spec()),
    {
        JsValue::Promise(self.promise_obj)
    }

    /// Settle the promise as resolved with `value`, then run every pending
    /// engine job, so the promise reactions queued by the settlement are
    /// flushed before anything else observes engine state.
    pub fn resolve(&self, engine: &mut EngineInstance, value: JsValue) -> (r: Result<(), EsError>)
        requires
            old(engine).wf(),
            self.obj_spec() < old(engine).promises@.len(),
        ensures
            final(engine).wf(),
            r is Ok,
            settle_effect(*old(engine), self.obj_spec(), value, true, *final(engine)),
    {
        engine.resolve_promise(self.promise_obj, value);
        Ok(())
    }

    /// Settle the promise as rejected with `value`; otherwise as
    /// [`Self::resolve`].
    pub fn reject(&self, engine: &mut EngineInstance, value: JsValue) -> (r: Result<(), EsError>)
        requires
            old(engine).wf(),
            self.obj_spec() < old(engine).promises@.len(),
        ensures
            final(engine).wf(),
            r is Ok,
            settle_effect(*old(engine), self.obj_spec(), value, false, *final(engine)),
    {
        engine.reject_promise(self.promise_obj, value);
        Ok(())
    }
}

/// Create a new promise: a fresh pending promise object with no reactions,
/// which host code can settle through the returned [`PromiseRef`].
pub fn new_promise(engine: &mut EngineInstance) -> (r: Result<PromiseRef, EsError>)
    requires
        old(engine).wf(),
        old(engine).promises@.len() < u64::MAX,
    ensures
        final(engine).wf(),
        r is Ok,
        r matches Ok(p) ==> {
            &&& p.obj_spec() == old(engine).promises@.len()
            &&& final(engine).promises@.len() == old(engine).promises@.len() + 1
            &&& final(engine).promises@[p.obj_spec() as int].state is Pending
            &&& final(engine).promises@[p.obj_spec() as int].then_reactions@ == Seq::<u64>::empty()
            &&& final(engine).promises@[p.obj_spec() as int].catch_reactions@ == Seq::<
                u64,
            >::empty()
            &&& final(engine).promises@[p.obj_spec() as int].finally_reactions@ == Seq::<
                u64,
            >::empty()
            &&& forall|k: int|
                0 <= k < old(engine).promises@.len() ==> final(engine).promises@[k] == old(
                    engine,
                ).promises@[k]
        },
        final(engine).contexts == old(engine).contexts,
        final(engine).cache == old(engine).cache,
        final(engine).jobs == old(engine).jobs,
        final(engine).fired == old(engine).fired,
{
    let obj = engine.new_promise_obj();
    Ok(PromiseRef { promise_obj: obj })
}

/// The full effect of registering reactions against promise `obj`.  On a
/// pending promise each handed-in token is appended to its slot, to fire
/// when the promise settles.  On a promise that has already settled, the
/// matching reaction and the finally reaction become due at once — still
/// exactly once each — with the already-known settlement value.
pub open spec fn add_reactions_effect(
    pre: EngineInstance,
    obj: u64,
    then_token: Option<u64>,
    catch_token: Option<u64>,
    finally_token: Option<u64>,
    post: EngineInstance,
) -> bool {
    let rec = pre.promises@[obj as int];
    &&& post.contexts == pre.contexts
    &&& post.cache == pre.cache
    &&& post.fired == pre.fired
    &&& post.installed == pre.installed
    &&& post.promises@.len() == pre.promises@.len()
    &&& forall|k: int|
        0 <= k < pre.promises@.len() && k != obj ==> post.promises@[k] == pre.promises@[k]
    &&& post.promises@[obj as int].state == rec.state
    &&& match rec.state {
        PromiseState::Pending => {
            &&& post.jobs == pre.jobs
            &&& post.promises@[obj as int].then_reactions@ == rec.then_reactions@ + opt_tokens(
                then_token,
            )
            &&& post.promises@[obj as int].catch_reactions@ == rec.catch_reactions@ + opt_tokens(
                catch_token,
            )
            &&& post.promises@[obj as int].finally_reactions@ == rec.finally_reactions@
                + opt_tokens(finally_token)
        },
        PromiseState::Resolved(_) => {
            &&& post.promises@[obj as int] == rec
            &&& post.jobs@ == pre.jobs@ + opt_jobs(then_token, obj, ReactionKind::OnResolve)
                + opt_jobs(finally_token, obj, ReactionKind::OnFinally)
        },
        PromiseState::Rejected(_) => {
            &&& post.promises@[obj as int] == rec
            &&& post.jobs@ == pre.jobs@ + opt_jobs(catch_token, obj, ReactionKind::OnReject)
                + opt_jobs(finally_token, obj, ReactionKind::OnFinally)
        },
    }
}

/// Register up to three reactions against a promise object: a reaction for
/// resolution, one for rejection, and a finally reaction.  Each reaction
/// fires exactly once; registration after settlement still fires the
/// matching reactions with the already-known settlement value.
pub fn add_promise_reactions(
    engine: &mut EngineInstance,
    promise_obj_ref: &JsValue,
    then_token: Option<u64>,
    catch_token: Option<u64>,
    finally_token: Option<u64>,
) -> (r: Result<(), EsError>)
    requires
        old(engine).wf(),
        js_val(*promise_obj_ref) is Promise,
        js_val(*promise_obj_ref)->Promise_0 < old(engine).promises@.len(),
    ensures
        final(engine).wf(),
        r is Ok,
        add_reactions_effect(
            *old(engine),
            js_val(*promise_obj_ref)->Promise_0,
            then_token,
            catch_token,
            finally_token,
            *final(engine),
        ),
{
    let obj: u64 = match promise_obj_ref {
        JsValue::Promise(h) => *h,
        _ => unreached(),
    };
    let total = engine.promises.len();
    let idx = obj as usize;
    proof {
        assert((obj as int) < (total as int));
        assert(idx as int == obj as int);
    }
    let is_pending = matches!(engine.promises[idx].state, PromiseState::Pending);
    let is_resolved = matches!(engine.promises[idx].state, PromiseState::Resolved(_));
    if is_pending {
        let mut then_reactions = copy_tokens(&engine.promises[idx].then_reactions);
        let mut catch_reactions = copy_tokens(&engine.promises[idx].catch_reactions);
        let mut finally_reactions = copy_tokens(&engine.promises[idx].finally_reactions);
        if let Some(t) = then_token {
            then_reactions.push(t);
        }
        if let Some(t) = catch_token {
            catch_reactions.push(t);
        }
        if let Some(t) = finally_token {
            finally_reactions.push(t);
        }
        engine.promises[idx] = PromiseRec {
            state: PromiseState::Pending,
            then_reactions,
            catch_reactions,
            finally_reactions,
        };
        proof {
            assert(final(engine).promises@[obj as int].then_reactions@ =~= old(
                engine,
            ).promises@[obj as int].then_reactions@ + opt_tokens(then_token));
            assert(final(engine).promises@[obj as int].catch_reactions@ =~= old(
                engine,
            ).promises@[obj as int].catch_reactions@ + opt_tokens(catch_token));
            assert(final(engine).promises@[obj as int].finally_reactions@ =~= old(
                engine,
            ).promises@[obj as int].finally_reactions@ + opt_tokens(finally_token));
        }
    } else {
        let due_kind = if is_resolved {
            ReactionKind::OnResolve
        } else {
            ReactionKind::OnReject
        };
        let main_token = if is_resolved {
            then_token
        } else {
            catch_token
        };
        let ghost jobs0 = old(engine).jobs@;
        if let Some(t) = main_token {
            engine.jobs.push(ReactionJob { token: t, obj, kind: due_kind });
        }
        if let Some(t) = finally_token {
            engine.jobs.push(ReactionJob { token: t, obj, kind: ReactionKind::OnFinally });
        }
        proof {
            if is_resolved {
                assert(final(engine).jobs@ =~= jobs0 + opt_jobs(
                    then_token,
                    obj,
                    ReactionKind::OnResolve,
                ) + opt_jobs(finally_token, obj, ReactionKind::OnFinally));
            } else {
                assert(final(engine).jobs@ =~= jobs0 + opt_jobs(
                    catch_token,
                    obj,
                    ReactionKind::OnReject,
                ) + opt_jobs(finally_token, obj, ReactionKind::OnFinally));
            }
        }
    }
    Ok(())
}

/// Copy a token list.
fn copy_tokens(src: &Vec<u64>) -> (r: Vec<u64>)
    ensures
        r@ == src@,
{
    let mut out: Vec<u64> = Vec::new();
    let mut i: usize = 0;
    while i < src.len()
        invariant
            i <= src@.len(),
            out@ == src@.take(i as int),
        decreases src@.len() - i,
    {
        out.push(src[i]);
        proof {
            assert(out@ =~= src@.take(i as int + 1));
        }
        i = i + 1;
    }
    proof {
        assert(src@.take(src@.len() as int) =~= src@);
    }
    out
}

} // verus!
