use quickjs_runtime::EsRuntime;
use quickjs_runtime::EsTask;
use quickjs_runtime::TaskOutcome;

#[test]
fn fifo_submission_order_is_execution_order() {
    let mut rt = EsRuntime::builder().build();
    rt.add_task(EsTask::Host(10));
    rt.add_task(EsTask::Host(11));
    let t = rt.add_to_event_queue(EsTask::Host(12));
    assert_eq!(rt.get_todo_count(), 3);

    // a blocking submission waits for everything ahead of it
    let out = rt.exe_task(EsTask::Gc);
    assert_eq!(out, TaskOutcome::Done);
    assert_eq!(rt.get_todo_count(), 0);

    // sequence numbers record submission order; the history lists them in
    // execution order
    assert_eq!(rt.inner.history, vec![0u64, 1, 2, 3]);
    assert_eq!(rt.inner.outcome_for(t), Some(TaskOutcome::Done));
}

#[test]
fn mixed_submission_primitives_keep_fifo() {
    let mut rt = EsRuntime::builder().build();
    let a = rt.inner.async_task(EsTask::CreateContext("one".to_string()));
    rt.inner.add_task(EsTask::Host(1));
    let b = rt.inner.add_to_event_queue(EsTask::CreateContext("one".to_string()));
    let out = rt.inner.add_to_event_queue_sync(EsTask::Host(2));
    assert_eq!(out, TaskOutcome::Done);
    assert_eq!(rt.inner.history, vec![0u64, 1, 2, 3]);
    // the first creation won the identifier; the later duplicate lost
    assert_eq!(rt.inner.outcome_for(a), Some(TaskOutcome::ContextCreated));
    assert_eq!(rt.inner.outcome_for(b), Some(TaskOutcome::ContextExisted));
}

#[test]
fn submission_from_worker_queues_behind() {
    let mut rt = EsRuntime::builder().build();
    let s = rt.inner.add_to_event_queue_from_worker(EsTask::Gc);
    assert_eq!(s, 0);
    assert_eq!(rt.get_todo_count(), 1);
    rt.inner.service_all();
    assert_eq!(rt.get_todo_count(), 0);
    assert_eq!(rt.inner.history, vec![0u64]);
}

#[test]
fn create_context_fails_on_duplicate() {
    let mut rt = EsRuntime::builder().build();
    assert!(rt.create_context("ctx2").is_ok());
    assert!(rt.inner.engine.has_context("ctx2"));
    let err = rt.create_context("ctx2").unwrap_err();
    assert_eq!(err.get_message(), "context already exists");
}

#[test]
fn drop_context_removes_only_named_context() {
    let mut rt = EsRuntime::builder().build();
    rt.create_context("ctx2").unwrap();
    rt.create_context("ctx3").unwrap();
    rt.drop_context("ctx2");
    assert!(!rt.inner.engine.has_context("ctx2"));
    assert!(rt.inner.engine.has_context("ctx3"));
    assert!(rt.inner.engine.has_context("__main__"));
    // dropping an absent context is a silent no-op
    rt.drop_context("ctx2");
    assert!(rt.inner.engine.has_context("ctx3"));
}

#[test]
fn main_context_lives_for_the_runtime() {
    let mut rt = EsRuntime::builder().build();
    assert!(rt.inner.engine.has_context("__main__"));
    rt.drop_context("__main__");
    assert!(rt.inner.engine.has_context("__main__"));
}

#[test]
fn gc_leaves_modelled_state_alone() {
    let mut rt = EsRuntime::builder().build();
    rt.create_context("ctx2").unwrap();
    rt.gc_sync();
    assert!(rt.inner.engine.has_context("ctx2"));
    assert_eq!(rt.get_todo_count(), 0);
}

#[test]
fn helper_pool_has_at_least_two_workers() {
    let mut rt = EsRuntime::builder().build();
    assert!(rt.helper_pool.worker_count() >= 2);
    assert_eq!(rt.helper_pool.todo_count(), 0);
    rt.add_helper_task(41);
    rt.add_helper_task(42);
    assert_eq!(rt.helper_pool.todo_count(), 2);
    // helper work never reaches the engine queue
    assert_eq!(rt.get_todo_count(), 0);
}

#[test]
fn clone_inner_reads_the_shared_state() {
    let mut rt = EsRuntime::builder().build();
    rt.add_task(EsTask::Host(5));
    let inner = rt.clone_inner();
    assert_eq!(inner.event_queue.todo_count(), 1);
}

#[test]
fn queued_work_runs_before_a_blocking_task() {
    let mut rt = EsRuntime::builder().build();
    rt.inner.async_task(EsTask::CreateContext("early".to_string()));
    // the asynchronous submission has not run yet
    assert!(!rt.inner.engine.has_context("early"));
    // a blocking submission waits for it
    rt.exe_task(EsTask::Gc);
    assert!(rt.inner.engine.has_context("early"));
}

#[test]
fn consuming_a_dead_identifier_is_a_no_op() {
    let mut rt = EsRuntime::builder().build();
    let out = rt.exe_task(EsTask::ConsumeCached(42));
    assert_eq!(out, TaskOutcome::Done);
    assert_eq!(rt.inner.engine.cache.len(), 0);
}

#[test]
fn set_function_reaches_every_context() {
    let mut rt = EsRuntime::builder().build();
    rt.set_function(
        vec!["nl".to_string(), "my".to_string(), "utils".to_string()],
        "methodA".to_string(),
        7,
    )
    .unwrap();
    assert_eq!(rt.inner.engine.installed.len(), 1);
    assert_eq!(rt.inner.engine.installed[0].1, "methodA");
    assert_eq!(rt.inner.engine.installed[0].2, 7);

    // a context created afterwards sees every installed function too
    rt.create_context("ctx2").unwrap();
    assert!(rt.inner.engine.has_context("ctx2"));
    assert_eq!(rt.inner.engine.installed.len(), 1);

    // a second installation queues behind and lands after the first
    rt.set_function(vec!["com".to_string()], "methodB".to_string(), 8).unwrap();
    assert_eq!(rt.inner.engine.installed.len(), 2);
    assert_eq!(rt.inner.engine.installed[1].2, 8);
}
