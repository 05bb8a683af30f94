use quickjs_runtime::add_promise_reactions;
use quickjs_runtime::is_promise;
use quickjs_runtime::new_promise;
use quickjs_runtime::EsRuntime;
use quickjs_runtime::EsValueConvertible;
use quickjs_runtime::EsValueFacade;
use quickjs_runtime::JsValue;
use quickjs_runtime::PromiseState;
use quickjs_runtime::ReactionKind;

#[test]
fn test_instance_of_prom() {
    let mut rt = EsRuntime::builder().build();
    let prom = new_promise(&mut rt.inner.engine).unwrap();
    let obj_ref = prom.get_promise_obj_ref();
    assert!(is_promise(&obj_ref));
    assert!(!is_promise(&JsValue::Int(3)));
}

#[test]
fn promise_resolved_value_reaches_blocking_waiter() {
    let mut rt = EsRuntime::builder().build();
    let prom = new_promise(&mut rt.inner.engine).unwrap();
    let obj_ref = prom.get_promise_obj_ref();
    let facade = EsValueFacade::from_jsval(&mut rt.inner.engine.cache, &obj_ref).unwrap();
    assert!(facade.is_promise());

    prom.resolve(&mut rt.inner.engine, JsValue::Int(12345)).unwrap();

    let outcome = facade.await_promise_blocking(&mut rt.inner).unwrap();
    let value = outcome.unwrap();
    assert!(value.is_i32());
    assert_eq!(value.get_i32(), 12345);
}

#[test]
fn promise_rejection_reaches_the_failure_arm() {
    let mut rt = EsRuntime::builder().build();
    let prom = new_promise(&mut rt.inner.engine).unwrap();
    let obj_ref = prom.get_promise_obj_ref();
    let facade = EsValueFacade::from_jsval(&mut rt.inner.engine.cache, &obj_ref).unwrap();

    prom.reject(&mut rt.inner.engine, JsValue::Int(130)).unwrap();

    let outcome = facade.await_promise_blocking(&mut rt.inner).unwrap();
    let reason = outcome.unwrap_err();
    assert!(reason.is_i32());
    assert_eq!(reason.get_i32(), 130);
}

#[test]
fn unsettled_promise_times_out() {
    let mut rt = EsRuntime::builder().build();
    let prom = new_promise(&mut rt.inner.engine).unwrap();
    let obj_ref = prom.get_promise_obj_ref();
    let facade = EsValueFacade::from_jsval(&mut rt.inner.engine.cache, &obj_ref).unwrap();

    let outcome = facade.await_promise_blocking(&mut rt.inner);
    assert!(outcome.is_err());
}

#[test]
fn reactions_fire_exactly_once_in_order() {
    let mut rt = EsRuntime::builder().build();
    let prom = new_promise(&mut rt.inner.engine).unwrap();
    let obj_ref = prom.get_promise_obj_ref();
    add_promise_reactions(&mut rt.inner.engine, &obj_ref, Some(1), Some(2), Some(3)).unwrap();
    assert_eq!(rt.inner.engine.fired.len(), 0);

    prom.resolve(&mut rt.inner.engine, JsValue::Int(364)).unwrap();

    // the then reaction fires with the settlement, the finally reaction
    // after it; the catch reaction never fires
    assert_eq!(rt.inner.engine.fired.len(), 2);
    assert_eq!(rt.inner.engine.fired[0].token, 1);
    assert_eq!(rt.inner.engine.fired[0].kind, ReactionKind::OnResolve);
    assert_eq!(rt.inner.engine.fired[1].token, 3);
    assert_eq!(rt.inner.engine.fired[1].kind, ReactionKind::OnFinally);

    // settling again is a no-op: the first settlement value stays
    prom.resolve(&mut rt.inner.engine, JsValue::Int(999)).unwrap();
    assert_eq!(rt.inner.engine.fired.len(), 2);
    match &rt.inner.engine.promises[0].state {
        PromiseState::Resolved(JsValue::Int(v)) => assert_eq!(*v, 364),
        _ => panic!("expected the promise to stay resolved with 364"),
    }
}

#[test]
fn late_registration_still_fires_exactly_once() {
    let mut rt = EsRuntime::builder().build();
    let prom = new_promise(&mut rt.inner.engine).unwrap();
    let obj_ref = prom.get_promise_obj_ref();
    prom.resolve(&mut rt.inner.engine, JsValue::Int(7)).unwrap();

    add_promise_reactions(&mut rt.inner.engine, &obj_ref, Some(9), None, None).unwrap();
    assert_eq!(rt.inner.engine.jobs.len(), 1);
    rt.inner.engine.run_pending_jobs();
    assert_eq!(rt.inner.engine.fired.len(), 1);
    assert_eq!(rt.inner.engine.fired[0].token, 9);
    assert_eq!(rt.inner.engine.fired[0].kind, ReactionKind::OnResolve);
    rt.inner.engine.run_pending_jobs();
    assert_eq!(rt.inner.engine.fired.len(), 1);
}

#[test]
fn rejection_reactions_fire_catch_and_finally() {
    let mut rt = EsRuntime::builder().build();
    let prom = new_promise(&mut rt.inner.engine).unwrap();
    let obj_ref = prom.get_promise_obj_ref();
    add_promise_reactions(&mut rt.inner.engine, &obj_ref, Some(1), Some(2), Some(3)).unwrap();

    prom.reject(&mut rt.inner.engine, JsValue::Int(130)).unwrap();

    assert_eq!(rt.inner.engine.fired.len(), 2);
    assert_eq!(rt.inner.engine.fired[0].token, 2);
    assert_eq!(rt.inner.engine.fired[0].kind, ReactionKind::OnReject);
    assert_eq!(rt.inner.engine.fired[1].token, 3);
    assert_eq!(rt.inner.engine.fired[1].kind, ReactionKind::OnFinally);
}

#[test]
fn cached_handle_lifecycle() {
    let mut rt = EsRuntime::builder().build();
    let facade = EsValueFacade::from_jsval(&mut rt.inner.engine.cache, &JsValue::Function(7))
        .unwrap();
    // registering added exactly one entry
    assert_eq!(rt.inner.engine.cache.len(), 1);

    // releasing the facade schedules one asynchronous cleanup task
    facade.release(&mut rt.inner);
    assert_eq!(rt.get_todo_count(), 1);
    assert_eq!(rt.inner.engine.cache.len(), 1);

    // the queued cleanup removes exactly one entry
    rt.inner.service_all();
    assert_eq!(rt.inner.engine.cache.len(), 0);
}

#[test]
fn release_after_teardown_is_a_no_op() {
    let facade;
    {
        let mut rt = EsRuntime::builder().build();
        facade = EsValueFacade::from_jsval(&mut rt.inner.engine.cache, &JsValue::Promise(3))
            .unwrap();
        // the runtime is torn down here, table and engine together
    }
    facade.release_after_teardown();
}

#[test]
fn invoke_function_queues_the_call() {
    let mut rt = EsRuntime::builder().build();
    let facade = EsValueFacade::from_jsval(&mut rt.inner.engine.cache, &JsValue::Function(4))
        .unwrap();
    facade.invoke_function(&mut rt.inner, vec![13.to_es_value_facade(), 56.to_es_value_facade()])
        .unwrap();
    assert_eq!(rt.get_todo_count(), 1);
    rt.inner.service_all();
    assert_eq!(rt.get_todo_count(), 0);
    assert_eq!(rt.inner.history, vec![0u64]);
}

#[test]
fn facade_reactions_reach_the_engine_promise() {
    let mut rt = EsRuntime::builder().build();
    let prom = new_promise(&mut rt.inner.engine).unwrap();
    let obj_ref = prom.get_promise_obj_ref();
    let facade = EsValueFacade::from_jsval(&mut rt.inner.engine.cache, &obj_ref).unwrap();

    facade
        .add_promise_reactions(&mut rt.inner, Some(21), None, Some(23))
        .unwrap();
    prom.resolve(&mut rt.inner.engine, JsValue::Int(743)).unwrap();

    assert_eq!(rt.inner.engine.fired.len(), 2);
    assert_eq!(rt.inner.engine.fired[0].token, 21);
    assert_eq!(rt.inner.engine.fired[0].kind, ReactionKind::OnResolve);
    assert_eq!(rt.inner.engine.fired[1].token, 23);
    assert_eq!(rt.inner.engine.fired[1].kind, ReactionKind::OnFinally);
}
