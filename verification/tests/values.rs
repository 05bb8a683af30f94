use quickjs_runtime::CachedObjectTable;
use quickjs_runtime::EsNullValue;
use quickjs_runtime::EsUndefinedValue;
use quickjs_runtime::EsValueConvertible;
use quickjs_runtime::EsValueFacade;
use quickjs_runtime::JsValue;

#[test]
fn test_macro() {
    let _args = vec![
        1.to_es_value_facade(),
        2i32.to_es_value_facade(),
        true.to_es_value_facade(),
        "sdf".to_string().to_es_value_facade(),
    ];
}

#[test]
fn facade_predicates_and_getters() {
    let i = 27.to_es_value_facade();
    assert!(i.is_i32());
    assert!(!i.is_string());
    assert!(!i.is_boolean());
    assert_eq!(i.get_i32(), 27);

    let s = "foo bar".to_string().to_es_value_facade();
    assert!(s.is_string());
    assert_eq!(s.get_str(), "foo bar");

    let b = true.to_es_value_facade();
    assert!(b.is_boolean());
    assert!(b.get_boolean());

    let n = EsNullValue {}.to_es_value_facade();
    assert!(n.is_null());
    assert!(!n.is_undefined());

    let u = EsUndefinedValue {}.to_es_value_facade();
    assert!(u.is_undefined());

    let a = vec![1.to_es_value_facade(), 2.to_es_value_facade()].to_es_value_facade();
    assert!(a.is_array());
    assert_eq!(a.get_array().len(), 2);
    assert_eq!(a.get_array()[0].get_i32(), 1);

    let o: Vec<(String, EsValueFacade)> = vec![("answer".to_string(), 42.to_es_value_facade())];
    let o = o.to_es_value_facade();
    assert!(o.is_object());
    assert_eq!(o.get_object()[0].0, "answer");
    assert_eq!(o.get_object()[0].1.get_i32(), 42);
}

#[test]
fn marshal_primitives_from_engine() {
    let mut cache = CachedObjectTable::new();
    let f = EsValueFacade::from_jsval(&mut cache, &JsValue::Int(27)).unwrap();
    assert!(f.is_i32());
    assert_eq!(f.get_i32(), 27);

    let f = EsValueFacade::from_jsval(&mut cache, &JsValue::Str("bar".to_string())).unwrap();
    assert!(f.is_string());
    assert_eq!(f.get_str(), "bar");

    let f = EsValueFacade::from_jsval(&mut cache, &JsValue::Bool(false)).unwrap();
    assert!(f.is_boolean());
    assert!(!f.get_boolean());

    let f = EsValueFacade::from_jsval(&mut cache, &JsValue::Null).unwrap();
    assert!(f.is_null());

    let f = EsValueFacade::from_jsval(&mut cache, &JsValue::Undefined).unwrap();
    assert!(f.is_undefined());

    // no primitive marshalling registers a cached object
    assert_eq!(cache.len(), 0);
}

#[test]
fn round_trip_primitives() {
    let cache = CachedObjectTable::new();
    let mut cache2 = CachedObjectTable::new();
    for f in [
        13.to_es_value_facade(),
        "abc".to_string().to_es_value_facade(),
        true.to_es_value_facade(),
        EsNullValue {}.to_es_value_facade(),
        EsUndefinedValue {}.to_es_value_facade(),
    ] {
        let j = f.to_js_value(&cache);
        let back = EsValueFacade::from_jsval(&mut cache2, &j).unwrap();
        assert_eq!(back, f);
    }
    assert_eq!(cache2.len(), 0);
}

#[test]
fn round_trip_nested_arrays_and_maps() {
    // depth-4 value built from primitives: map inside array inside map
    let leaf: Vec<(String, EsValueFacade)> = vec![
        ("a".to_string(), 1.to_es_value_facade()),
        ("b".to_string(), "two".to_string().to_es_value_facade()),
    ];
    let arr = vec![
        leaf.to_es_value_facade(),
        false.to_es_value_facade(),
        vec![3.to_es_value_facade()].to_es_value_facade(),
    ];
    let top: Vec<(String, EsValueFacade)> = vec![("payload".to_string(), arr.to_es_value_facade())];
    let f = top.to_es_value_facade();

    let cache = CachedObjectTable::new();
    let mut cache2 = CachedObjectTable::new();
    let j = f.to_js_value(&cache);
    let back = EsValueFacade::from_jsval(&mut cache2, &j).unwrap();
    assert_eq!(back, f);
    assert_eq!(cache2.len(), 0);
}

#[test]
fn dates_are_rejected() {
    let mut cache = CachedObjectTable::new();
    let err = EsValueFacade::from_jsval(&mut cache, &JsValue::Date(1)).unwrap_err();
    assert_eq!(err.get_message(), "dates are currently not supported");
    assert_eq!(cache.len(), 0);
}

#[test]
fn bigints_are_rejected() {
    let mut cache = CachedObjectTable::new();
    let err = EsValueFacade::from_jsval(&mut cache, &JsValue::BigInt(2)).unwrap_err();
    assert_eq!(err.get_message(), "BigInts are currently not supported");
}

#[test]
fn nested_unsupported_value_is_rejected() {
    let mut cache = CachedObjectTable::new();
    let j = JsValue::Array(vec![JsValue::Int(1), JsValue::Date(7)]);
    let err = EsValueFacade::from_jsval(&mut cache, &j).unwrap_err();
    assert_eq!(err.get_message(), "dates are currently not supported");
}

#[test]
fn functions_are_cached_on_marshal() {
    let mut cache = CachedObjectTable::new();
    let f = EsValueFacade::from_jsval(&mut cache, &JsValue::Function(77)).unwrap();
    assert!(f.is_function());
    assert!(!f.is_promise());
    assert_eq!(cache.len(), 1);

    // converting back resolves the identifier to the same engine object
    let j = f.to_js_value(&cache);
    match j {
        JsValue::Function(h) => assert_eq!(h, 77),
        _ => panic!("expected a function"),
    }
}

#[test]
fn nested_functions_each_get_their_own_entry() {
    let mut cache = CachedObjectTable::new();
    let j = JsValue::Array(vec![
        JsValue::Function(5),
        JsValue::Object(vec![("p".to_string(), JsValue::Promise(6))]),
    ]);
    let f = EsValueFacade::from_jsval(&mut cache, &j).unwrap();
    assert!(f.is_array());
    assert_eq!(cache.len(), 2);
    let elems = f.get_array();
    assert!(elems[0].is_function());
    assert!(elems[1].is_object());
    assert!(elems[1].get_object()[0].1.is_promise());
}
