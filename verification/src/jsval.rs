use vstd::prelude::*;

verus! {

broadcast use vstd::std_specs::vec::axiom_vec_index_decreases, vstd::std_specs::vec::axiom_vec_decreases_to_view, vstd::seq::axiom_seq_index_decreases;

/// Model of a value at the engine boundary, as the marshalling layer reads
/// it: the tag classification of the engine value together with the payload
/// the marshaller copies out.  Engine-resident objects that are surfaced by
/// reference (functions, promises, dates, big integers) are carried as an
/// engine object handle.
pub enum JsValue {
    Null,
    Undefined,
    Bool(bool),
    Int(i32),
    Str(String),
    /// An array-like object, elements in index order.
    Array(Vec<JsValue>),
    /// Any other plain object: its own properties in enumeration order.
    Object(Vec<(String, JsValue)>),
    /// A callable engine object, by engine object handle.
    Function(u64),
    /// A promise-like engine object, by engine object handle.
    Promise(u64),
    /// A date object; unsupported by the marshalling layer.
    Date(u64),
    /// A big integer; unsupported by the marshalling layer.
    BigInt(u64),
}

/// Mathematical counterpart of [`JsValue`].
pub enum JsVal {
    Null,
    Undefined,
    Bool(bool),
    Int(i32),
    Str(Seq<char>),
    Array(Seq<JsVal>),
    Object(Seq<(Seq<char>, JsVal)>),
    Function(u64),
    Promise(u64),
    Date(u64),
    BigInt(u64),
}

/// The mathematical value a [`JsValue`] stands for.
pub open spec fn js_val(v: JsValue) -> JsVal
    decreases v,
{
    match v {
        JsValue::Null => JsVal::Null,
        JsValue::Undefined => JsVal::Undefined,
        JsValue::Bool(b) => JsVal::Bool(b),
        JsValue::Int(i) => JsVal::Int(i),
        JsValue::Str(s) => JsVal::Str(s@),
        JsValue::Array(elems) => JsVal::Array(js_val_seq(elems@)),
        JsValue::Object(props) => JsVal::Object(js_val_props(props@)),
        JsValue::Function(h) => JsVal::Function(h),
        JsValue::Promise(h) => JsVal::Promise(h),
        JsValue::Date(h) => JsVal::Date(h),
        JsValue::BigInt(h) => JsVal::BigInt(h),
    }
}

pub open spec fn js_val_seq(elems: Seq<JsValue>) -> Seq<JsVal>
    decreases elems,
{
    if elems.len() == 0 {
        Seq::empty()
    } else {
        seq![js_val(elems[0])] + js_val_seq(elems.drop_first())
    }
}

pub open spec fn js_val_props(props: Seq<(String, JsValue)>) -> Seq<(Seq<char>, JsVal)>
    decreases props,
{
    if props.len() == 0 {
        Seq::empty()
    } else {
        seq![(props[0].0@, js_val(props[0].1))] + js_val_props(props.drop_first())
    }
}

/// Each element of [`js_val_seq`] is the value of the matching element.
pub proof fn lemma_js_val_seq(elems: Seq<JsValue>)
    ensures
        js_val_seq(elems).len() == elems.len(),
        forall|i: int|
            0 <= i < elems.len() ==> #[trigger] js_val_seq(elems)[i] == js_val(elems[i]),
    decreases elems.len(),
{
    if elems.len() > 0 {
        lemma_js_val_seq(elems.drop_first());
    }
}

/// Each element of [`js_val_props`] carries the matching key and value.
pub proof fn lemma_js_val_props(props: Seq<(String, JsValue)>)
    ensures
        js_val_props(props).len() == props.len(),
        forall|i: int|
            0 <= i < props.len() ==> #[trigger] js_val_props(props)[i] == (
            props[i].0@,
            js_val(props[i].1),
            ),
    decreases props.len(),
{
    if props.len() > 0 {
        lemma_js_val_props(props.drop_first());
    }
}

/// Whether the marshalling layer supports every node of the value: dates and
/// big integers are the two unsupported kinds.
pub open spec fn js_supported(j: JsVal) -> bool
    decreases j,
{
    match j {
        JsVal::Array(elems) => js_supported_seq(elems),
        JsVal::Object(props) => js_supported_props(props),
        JsVal::Date(_) => false,
        JsVal::BigInt(_) => false,
        _ => true,
    }
}

pub open spec fn js_supported_seq(elems: Seq<JsVal>) -> bool
    decreases elems,
{
    if elems.len() == 0 {
        true
    } else {
        js_supported(elems[0]) && js_supported_seq(elems.drop_first())
    }
}

pub open spec fn js_supported_props(props: Seq<(Seq<char>, JsVal)>) -> bool
    decreases props,
{
    if props.len() == 0 {
        true
    } else {
        js_supported(props[0].1) && js_supported_props(props.drop_first())
    }
}

/// A sequence is supported exactly when each of its elements is.
pub proof fn lemma_supported_seq(elems: Seq<JsVal>)
    ensures
        js_supported_seq(elems) <==> (forall|i: int|
            0 <= i < elems.len() ==> #[trigger] js_supported(elems[i])),
    decreases elems.len(),
{
    if elems.len() > 0 {
        let rest = elems.drop_first();
        lemma_supported_seq(rest);
        if js_supported_seq(elems) {
            assert forall|i: int| 0 <= i < elems.len() implies #[trigger] js_supported(
                elems[i],
            ) by {
                if i > 0 {
                    assert(js_supported(rest[i - 1]));
                    assert(rest[i - 1] == elems[i]);
                }
            }
        }
        if forall|i: int| 0 <= i < elems.len() ==> #[trigger] js_supported(elems[i]) {
            assert forall|i: int| 0 <= i < rest.len() implies #[trigger] js_supported(
                rest[i],
            ) by {
                assert(rest[i] == elems[i + 1]);
                assert(js_supported(elems[i + 1]));
            }
            assert(js_supported(elems[0]));
            assert(js_supported_seq(rest));
            assert(js_supported_seq(elems));
        }
    }
}

/// A property list is supported exactly when each of its values is.
pub proof fn lemma_supported_props(props: Seq<(Seq<char>, JsVal)>)
    ensures
        js_supported_props(props) <==> (forall|i: int|
            0 <= i < props.len() ==> #[trigger] js_supported(props[i].1)),
    decreases props.len(),
{
    if props.len() > 0 {
        let rest = props.drop_first();
        lemma_supported_props(rest);
        if js_supported_props(props) {
            assert forall|i: int| 0 <= i < props.len() implies #[trigger] js_supported(
                props[i].1,
            ) by {
                if i > 0 {
                    assert(js_supported(rest[i - 1].1));
                    assert(rest[i - 1] == props[i]);
                }
            }
        }
        if forall|i: int| 0 <= i < props.len() ==> #[trigger] js_supported(props[i].1) {
            assert forall|i: int| 0 <= i < rest.len() implies #[trigger] js_supported(
                rest[i].1,
            ) by {
                assert(rest[i] == props[i + 1]);
                assert(js_supported(props[i + 1].1));
            }
            assert(js_supported(props[0].1));
            assert(js_supported_props(rest));
            assert(js_supported_props(props));
        }
    }
}

/// How many function or promise nodes the value holds: each one costs a
/// fresh entry in the cached object table when the value is marshalled.
pub open spec fn js_ref_nodes(j: JsVal) -> nat
    decreases j,
{
    match j {
        JsVal::Array(elems) => js_ref_nodes_seq(elems),
        JsVal::Object(props) => js_ref_nodes_props(props),
        JsVal::Function(_) => 1,
        JsVal::Promise(_) => 1,
        _ => 0,
    }
}

pub open spec fn js_ref_nodes_seq(elems: Seq<JsVal>) -> nat
    decreases elems,
{
    if elems.len() == 0 {
        0
    } else {
        js_ref_nodes(elems[0]) + js_ref_nodes_seq(elems.drop_first())
    }
}

pub open spec fn js_ref_nodes_props(props: Seq<(Seq<char>, JsVal)>) -> nat
    decreases props,
{
    if props.len() == 0 {
        0
    } else {
        js_ref_nodes(props[0].1) + js_ref_nodes_props(props.drop_first())
    }
}

} // verus!
