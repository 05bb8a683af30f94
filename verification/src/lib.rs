//! A scripting-engine embedding runtime: a single-threaded engine made
//! usable from a multi-threaded host.  All engine access is serialized
//! onto one dedicated worker through a FIFO task queue; engine values
//! cross threads as portable facades, with primitives copied by value and
//! engine-resident functions and promises carried by cached object
//! identifier; and a promise bridge lets host code wait on, or register
//! reactions against, engine promises without ever holding a raw engine
//! handle outside the worker.

mod cache;
mod engine;
mod eserror;
mod esruntime;
mod esvalue;
mod jsval;
mod promises;
mod queue;

pub use cache::{cache_contains, cache_lookup, CachedHandle, CachedObjectTable};
pub use engine::{
    due_jobs, fn_installed, main_context_id, main_context_id_str, settle_effect, settled_state,
    EngineInstance, PromiseRec, PromiseState, ReactionJob, ReactionKind,
};
pub use eserror::{EsError, EsTimeoutError};
pub use esruntime::{
    await_headroom, awaited_obj, cached_id_of, lemma_fifo_order, lemma_run_steps_empty,
    lemma_run_steps_snoc, lemma_single_writer, outcomes_lookup, run_steps, seqs_of, task_step,
    tasks_of, EsRuntime, EsRuntimeBuilder, EsRuntimeInner, HelperPool, TaskOutcome,
};
pub use esvalue::{
    bigint_unsupported_msg, date_unsupported_msg, es_primitive_only, es_primitive_only_props,
    es_primitive_only_seq, es_val, es_val_props, es_val_seq, facade_matches, facade_matches_props,
    facade_matches_seq, facade_valid, facade_valid_props, facade_valid_seq, handle_obj,
    lemma_es_val_props, lemma_es_val_seq, lemma_matches_mono, lemma_matches_props,
    lemma_matches_seq, lemma_matches_supported, lemma_primitive_only_props,
    lemma_primitive_only_seq, lemma_primitive_to_js, lemma_ref_nodes_props_split,
    lemma_ref_nodes_seq_split, lemma_round_trip, lemma_to_js_props, lemma_to_js_seq,
    lemma_valid_props, lemma_valid_seq, props_entry_matches, to_js_props, to_js_seq, to_js_val,
    EsNullValue, EsUndefinedValue, EsVal, EsValueConvertible, EsValueFacade, FacadeValue,
};
pub use jsval::{
    js_ref_nodes, js_ref_nodes_props, js_ref_nodes_seq, js_supported, js_supported_props,
    js_supported_seq, js_val, js_val_props, js_val_seq, lemma_js_val_props, lemma_js_val_seq,
    lemma_supported_props, lemma_supported_seq, JsVal, JsValue,
};
pub use queue::{EsTask, EventQueue};
pub use promises::{
    add_promise_reactions, add_reactions_effect, is_promise, new_promise, opt_jobs, opt_tokens,
    PromiseRef,
};
