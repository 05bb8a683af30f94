use vstd::prelude::*;

use crate::cache::{cache_contains, cache_lookup, CachedHandle, CachedObjectTable};
use crate::eserror::EsError;
use crate::jsval::{
    js_ref_nodes, js_ref_nodes_props, js_ref_nodes_seq, js_supported, js_val, js_val_props,
    js_val_seq, lemma_js_val_props, lemma_js_val_seq, JsVal, JsValue,
};

verus! {

broadcast use vstd::std_specs::vec::axiom_vec_index_decreases, vstd::std_specs::vec::axiom_vec_decreases_to_view, vstd::seq::axiom_seq_index_decreases;

/// The host-side, thread-portable representation of an engine value:
/// primitives are carried by value, arrays and plain objects are carried as
/// recursively converted copies, and engine-resident functions and promises
/// are carried by cached object identifier.
#[derive(Debug, PartialEq)]
pub enum FacadeValue {
    Null,
    Undefined,
    Bool(bool),
    Int(i32),
    Str(String),
    Array(Vec<EsValueFacade>),
    Object(Vec<(String, EsValueFacade)>),
    CachedFunction(i32),
    CachedPromise(i32),
}

/// A portable value facade.  See [`FacadeValue`] for the variants it ranges
/// over; the facade itself only exposes predicate and accessor methods, in
/// the checked-then-trust shape: each getter demands that the matching
/// predicate holds.
#[derive(Debug, PartialEq)]
pub struct EsValueFacade {
    pub value: FacadeValue,
}

/// Mathematical counterpart of [`EsValueFacade`].
pub enum EsVal {
    Null,
    Undefined,
    Bool(bool),
    Int(i32),
    Str(Seq<char>),
    Array(Seq<EsVal>),
    Object(Seq<(Seq<char>, EsVal)>),
    CachedFunction(i32),
    CachedPromise(i32),
}

/// The mathematical value an [`EsValueFacade`] stands for.
pub open spec fn es_val(f: EsValueFacade) -> EsVal
    decreases f,
{
    match f.value {
        FacadeValue::Null => EsVal::Null,
        FacadeValue::Undefined => EsVal::Undefined,
        FacadeValue::Bool(b) => EsVal::Bool(b),
        FacadeValue::Int(i) => EsVal::Int(i),
        FacadeValue::Str(s) => EsVal::Str(s@),
        FacadeValue::Array(elems) => EsVal::Array(es_val_seq(elems@)),
        FacadeValue::Object(props) => EsVal::Object(es_val_props(props@)),
        FacadeValue::CachedFunction(id) => EsVal::CachedFunction(id),
        FacadeValue::CachedPromise(id) => EsVal::CachedPromise(id),
    }
}

pub open spec fn es_val_seq(elems: Seq<EsValueFacade>) -> Seq<EsVal>
    decreases elems,
{
    if elems.len() == 0 {
        Seq::empty()
    } else {
        seq![es_val(elems[0])] + es_val_seq(elems.drop_first())
    }
}

pub open spec fn es_val_props(props: Seq<(String, EsValueFacade)>) -> Seq<(Seq<char>, EsVal)>
    decreases props,
{
    if props.len() == 0 {
        Seq::empty()
    } else {
        seq![(props[0].0@, es_val(props[0].1))] + es_val_props(props.drop_first())
    }
}

/// Each element of [`es_val_seq`] is the value of the matching element.
pub proof fn lemma_es_val_seq(elems: Seq<EsValueFacade>)
    ensures
        es_val_seq(elems).len() == elems.len(),
        forall|i: int|
            0 <= i < elems.len() ==> #[trigger] es_val_seq(elems)[i] == es_val(elems[i]),
    decreases elems.len(),
{
    if elems.len() > 0 {
        lemma_es_val_seq(elems.drop_first());
    }
}

/// Each element of [`es_val_props`] carries the matching key and value.
pub proof fn lemma_es_val_props(props: Seq<(String, EsValueFacade)>)
    ensures
        es_val_props(props).len() == props.len(),
        forall|i: int|
            0 <= i < props.len() ==> #[trigger] es_val_props(props)[i] == (
            props[i].0@,
            es_val(props[i].1),
            ),
    decreases props.len(),
{
    if props.len() > 0 {
        lemma_es_val_props(props.drop_first());
    }
}

/// A host value that can be wrapped into a portable facade.
pub trait EsValueConvertible: Sized {
    /// The facade value this host value becomes.
    spec fn facade_rep(&self) -> EsVal;

    fn to_es_value_facade(self) -> (f: EsValueFacade)
        ensures
            es_val(f) == self.facade_rep(),
    ;
}

/// Stands for the engine `null` value.
pub struct EsNullValue {}

/// Stands for the engine `undefined` value.
pub struct EsUndefinedValue {}

impl EsValueConvertible for EsNullValue {
    open spec fn facade_rep(&self) -> EsVal {
        EsVal::Null
    }

    fn to_es_value_facade(self) -> (f: EsValueFacade) {
        EsValueFacade { value: FacadeValue::Null }
    }
}

impl EsValueConvertible for EsUndefinedValue {
    open spec fn facade_rep(&self) -> EsVal {
        EsVal::Undefined
    }

    fn to_es_value_facade(self) -> (f: EsValueFacade) {
        EsValueFacade { value: FacadeValue::Undefined }
    }
}

impl EsValueConvertible for bool {
    open spec fn facade_rep(&self) -> EsVal {
        EsVal::Bool(*self)
    }

    fn to_es_value_facade(self) -> (f: EsValueFacade) {
        EsValueFacade { value: FacadeValue::Bool(self) }
    }
}

impl EsValueConvertible for i32 {
    open spec fn facade_rep(&self) -> EsVal {
        EsVal::Int(*self)
    }

    fn to_es_value_facade(self) -> (f: EsValueFacade) {
        EsValueFacade { value: FacadeValue::Int(self) }
    }
}

impl EsValueConvertible for String {
    open spec fn facade_rep(&self) -> EsVal {
        EsVal::Str(self@)
    }

    fn to_es_value_facade(self) -> (f: EsValueFacade) {
        EsValueFacade { value: FacadeValue::Str(self) }
    }
}

impl EsValueConvertible for Vec<EsValueFacade> {
    open spec fn facade_rep(&self) -> EsVal {
        EsVal::Array(es_val_seq(self@))
    }

    fn to_es_value_facade(self) -> (f: EsValueFacade) {
        EsValueFacade { value: FacadeValue::Array(self) }
    }
}

impl EsValueConvertible for Vec<(String, EsValueFacade)> {
    open spec fn facade_rep(&self) -> EsVal {
        EsVal::Object(es_val_props(self@))
    }

    fn to_es_value_facade(self) -> (f: EsValueFacade) {
        EsValueFacade { value: FacadeValue::Object(self) }
    }
}

impl EsValueFacade {
    /// check if the value is null
    pub fn is_null(&self) -> (r: bool)
        ensures
            r == (es_val(*self) == EsVal::Null),
    {
        matches!(self.value, FacadeValue::Null)
    }

    /// check if the value is undefined
    pub fn is_undefined(&self) -> (r: bool)
        ensures
            r == (es_val(*self) == EsVal::Undefined),
    {
        matches!(self.value, FacadeValue::Undefined)
    }

    /// check if the value is a String
    pub fn is_string(&self) -> (r: bool)
        ensures
            r == (es_val(*self) is Str),
    {
        matches!(self.value, FacadeValue::Str(_))
    }

    /// check if the value is an i32
    pub fn is_i32(&self) -> (r: bool)
        ensures
            r == (es_val(*self) is Int),
    {
        matches!(self.value, FacadeValue::Int(_))
    }

    /// check if the value is a bool
    pub fn is_boolean(&self) -> (r: bool)
        ensures
            r == (es_val(*self) is Bool),
    {
        matches!(self.value, FacadeValue::Bool(_))
    }

    /// check if the value is an object
    pub fn is_object(&self) -> (r: bool)
        ensures
            r == (es_val(*self) is Object),
    {
        matches!(self.value, FacadeValue::Object(_))
    }

    /// check if the value is an array
    pub fn is_array(&self) -> (r: bool)
        ensures
            r == (es_val(*self) is Array),
    {
        matches!(self.value, FacadeValue::Array(_))
    }

    /// check if the value is a function
    pub fn is_function(&self) -> (r: bool)
        ensures
            r == (es_val(*self) is CachedFunction),
    {
        matches!(self.value, FacadeValue::CachedFunction(_))
    }

    /// check if the value is a promise
    pub fn is_promise(&self) -> (r: bool)
        ensures
            r == (es_val(*self) is CachedPromise),
    {
        matches!(self.value, FacadeValue::CachedPromise(_))
    }

    /// get the String value; the caller must have checked `is_string`
    pub fn get_str(&self) -> (r: &str)
        requires
            es_val(*self) is Str,
        ensures
            es_val(*self) == EsVal::Str(r@),
    {
        match &self.value {
            FacadeValue::Str(s) => s.as_str(),
            _ => unreached(),
        }
    }

    /// get the i32 value; the caller must have checked `is_i32`
    pub fn get_i32(&self) -> (r: i32)
        requires
            es_val(*self) is Int,
        ensures
            es_val(*self) == EsVal::Int(r),
    {
        match &self.value {
            FacadeValue::Int(i) => *i,
            _ => unreached(),
        }
    }

    /// get the boolean value; the caller must have checked `is_boolean`
    pub fn get_boolean(&self) -> (r: bool)
        requires
            es_val(*self) is Bool,
        ensures
            es_val(*self) == EsVal::Bool(r),
    {
        match &self.value {
            FacadeValue::Bool(b) => *b,
            _ => unreached(),
        }
    }

    /// get the array elements; the caller must have checked `is_array`
    pub fn get_array(&self) -> (r: &Vec<EsValueFacade>)
        requires
            es_val(*self) is Array,
        ensures
            es_val(*self) == EsVal::Array(es_val_seq(r@)),
    {
        match &self.value {
            FacadeValue::Array(elems) => elems,
            _ => unreached(),
        }
    }

    /// get the object properties; the caller must have checked `is_object`
    pub fn get_object(&self) -> (r: &Vec<(String, EsValueFacade)>)
        requires
            es_val(*self) is Object,
        ensures
            es_val(*self) == EsVal::Object(es_val_props(r@)),
    {
        match &self.value {
            FacadeValue::Object(props) => props,
            _ => unreached(),
        }
    }

    /// The cached object identifier a function or promise facade carries.
    pub fn get_cached_id(&self) -> (id: i32)
        requires
            es_val(*self) is CachedFunction || es_val(*self) is CachedPromise,
        ensures
            es_val(*self) is CachedFunction ==> es_val(*self) == EsVal::CachedFunction(id),
            es_val(*self) is CachedPromise ==> es_val(*self) == EsVal::CachedPromise(id),
    {
        match &self.value {
            FacadeValue::CachedFunction(id) => *id,
            FacadeValue::CachedPromise(id) => *id,
            _ => unreached(),
        }
    }
}

pub open spec fn date_unsupported_msg() -> Seq<char> {
    "dates are currently not supported"@
}

pub open spec fn bigint_unsupported_msg() -> Seq<char> {
    "BigInts are currently not supported"@
}

/// Relation: the facade `e` is a marshalled image of the engine value `j`
/// under the cached object table `c`.  Primitives are copied; functions and
/// promise-like objects are carried as identifiers whose table entry retains
/// the original engine object; dates and big integers have no image.
pub open spec fn facade_matches(e: EsVal, j: JsVal, c: Seq<(i32, CachedHandle)>) -> bool
    decreases j,
{
    match j {
        JsVal::Null => e == EsVal::Null,
        JsVal::Undefined => e == EsVal::Undefined,
        JsVal::Bool(b) => e == EsVal::Bool(b),
        JsVal::Int(i) => e == EsVal::Int(i),
        JsVal::Str(s) => e == EsVal::Str(s),
        JsVal::Array(js) => e is Array && facade_matches_seq(e->Array_0, js, c),
        JsVal::Object(ps) => e is Object && facade_matches_props(e->Object_0, ps, c),
        JsVal::Function(h) => e is CachedFunction && cache_lookup(c, e->CachedFunction_0)
            == Option::Some(CachedHandle::Function(h)),
        JsVal::Promise(h) => e is CachedPromise && cache_lookup(c, e->CachedPromise_0)
            == Option::Some(CachedHandle::Promise(h)),
        JsVal::Date(_) => false,
        JsVal::BigInt(_) => false,
    }
}

pub open spec fn facade_matches_seq(
    es: Seq<EsVal>,
    js: Seq<JsVal>,
    c: Seq<(i32, CachedHandle)>,
) -> bool
    decreases js,
{
    if es.len() != js.len() {
        false
    } else if js.len() == 0 {
        true
    } else {
        facade_matches(es[0], js[0], c) && facade_matches_seq(es.drop_first(), js.drop_first(), c)
    }
}

/// One object property matches: same key, matching value.
pub open spec fn props_entry_matches(
    q: (Seq<char>, EsVal),
    p: (Seq<char>, JsVal),
    c: Seq<(i32, CachedHandle)>,
) -> bool {
    q.0 == p.0 && facade_matches(q.1, p.1, c)
}

pub open spec fn facade_matches_props(
    qs: Seq<(Seq<char>, EsVal)>,
    ps: Seq<(Seq<char>, JsVal)>,
    c: Seq<(i32, CachedHandle)>,
) -> bool
    decreases ps,
{
    if qs.len() != ps.len() {
        false
    } else if ps.len() == 0 {
        true
    } else {
        qs[0].0 == ps[0].0 && facade_matches(qs[0].1, ps[0].1, c) && facade_matches_props(
            qs.drop_first(),
            ps.drop_first(),
            c,
        )
    }
}

/// Sequences match exactly when they have the same length and match
/// element by element.
pub proof fn lemma_matches_seq(es: Seq<EsVal>, js: Seq<JsVal>, c: Seq<(i32, CachedHandle)>)
    ensures
        facade_matches_seq(es, js, c) <==> (es.len() == js.len() && (forall|i: int|
            0 <= i < js.len() ==> #[trigger] facade_matches(es[i], js[i], c))),
    decreases js.len(),
{
    if es.len() == js.len() && js.len() > 0 {
        let es1 = es.drop_first();
        let js1 = js.drop_first();
        lemma_matches_seq(es1, js1, c);
        if facade_matches_seq(es, js, c) {
            assert forall|i: int| 0 <= i < js.len() implies #[trigger] facade_matches(
                es[i],
                js[i],
                c,
            ) by {
                if i > 0 {
                    assert(facade_matches(es1[i - 1], js1[i - 1], c));
                    assert(es1[i - 1] == es[i]);
                    assert(js1[i - 1] == js[i]);
                }
            }
        }
        if forall|i: int| 0 <= i < js.len() ==> #[trigger] facade_matches(es[i], js[i], c) {
            assert forall|i: int| 0 <= i < js1.len() implies #[trigger] facade_matches(
                es1[i],
                js1[i],
                c,
            ) by {
                assert(es1[i] == es[i + 1]);
                assert(js1[i] == js[i + 1]);
                assert(facade_matches(es[i + 1], js[i + 1], c));
            }
            assert(facade_matches(es[0], js[0], c));
            assert(facade_matches_seq(es1, js1, c));
            assert(facade_matches_seq(es, js, c));
        }
    }
}

/// Property lists match exactly when they have the same length, equal keys,
/// and values that match pairwise.
pub proof fn lemma_matches_props(
    qs: Seq<(Seq<char>, EsVal)>,
    ps: Seq<(Seq<char>, JsVal)>,
    c: Seq<(i32, CachedHandle)>,
)
    ensures
        facade_matches_props(qs, ps, c) <==> (qs.len() == ps.len() && (forall|i: int|
            0 <= i < ps.len() ==> #[trigger] props_entry_matches(qs[i], ps[i], c))),
    decreases ps.len(),
{
    if qs.len() == ps.len() && ps.len() > 0 {
        let qs1 = qs.drop_first();
        let ps1 = ps.drop_first();
        lemma_matches_props(qs1, ps1, c);
        if facade_matches_props(qs, ps, c) {
            assert forall|i: int| 0 <= i < ps.len() implies #[trigger] props_entry_matches(
                qs[i],
                ps[i],
                c,
            ) by {
                if i > 0 {
                    assert(props_entry_matches(qs1[i - 1], ps1[i - 1], c));
                    assert(qs1[i - 1] == qs[i]);
                    assert(ps1[i - 1] == ps[i]);
                }
            }
        }
        if forall|i: int| 0 <= i < ps.len() ==> #[trigger] props_entry_matches(qs[i], ps[i], c) {
            assert forall|i: int| 0 <= i < ps1.len() implies #[trigger] props_entry_matches(
                qs1[i],
                ps1[i],
                c,
            ) by {
                assert(qs1[i] == qs[i + 1]);
                assert(ps1[i] == ps[i + 1]);
                assert(props_entry_matches(qs[i + 1], ps[i + 1], c));
            }
            assert(props_entry_matches(qs[0], ps[0], c));
            assert(facade_matches_props(qs1, ps1, c));
            assert(facade_matches_props(qs, ps, c));
        }
    }
}

/// A facade that matches some engine value only mentions supported nodes.
pub proof fn lemma_matches_supported(e: EsVal, j: JsVal, c: Seq<(i32, CachedHandle)>)
    requires
        facade_matches(e, j, c),
    ensures
        js_supported(j),
    decreases j,
{
    match j {
        JsVal::Array(js) => {
            let es = e->Array_0;
            lemma_matches_seq(es, js, c);
            crate::jsval::lemma_supported_seq(js);
            assert forall|i: int| 0 <= i < js.len() implies #[trigger] js_supported(js[i]) by {
                lemma_matches_supported(es[i], js[i], c);
            }
        },
        JsVal::Object(ps) => {
            let qs = e->Object_0;
            lemma_matches_props(qs, ps, c);
            crate::jsval::lemma_supported_props(ps);
            assert forall|i: int| 0 <= i < ps.len() implies #[trigger] js_supported(ps[i].1) by {
                assert(props_entry_matches(qs[i], ps[i], c));
                lemma_matches_supported(qs[i].1, ps[i].1, c);
            }
        },
        _ => {},
    }
}

/// Matching survives any table change that keeps all live entries.
pub proof fn lemma_matches_mono(
    e: EsVal,
    j: JsVal,
    c1: Seq<(i32, CachedHandle)>,
    c2: Seq<(i32, CachedHandle)>,
)
    requires
        facade_matches(e, j, c1),
        forall|x: i32|
            cache_contains(c1, x) ==> #[trigger] cache_lookup(c2, x) == cache_lookup(c1, x),
    ensures
        facade_matches(e, j, c2),
    decreases j,
{
    match j {
        JsVal::Array(js) => {
            let es = e->Array_0;
            lemma_matches_seq(es, js, c1);
            lemma_matches_seq(es, js, c2);
            assert forall|i: int| 0 <= i < js.len() implies #[trigger] facade_matches(
                es[i],
                js[i],
                c2,
            ) by {
                lemma_matches_mono(es[i], js[i], c1, c2);
            }
        },
        JsVal::Object(ps) => {
            let qs = e->Object_0;
            lemma_matches_props(qs, ps, c1);
            lemma_matches_props(qs, ps, c2);
            assert forall|i: int| 0 <= i < ps.len() implies #[trigger] props_entry_matches(
                qs[i],
                ps[i],
                c2,
            ) by {
                assert(props_entry_matches(qs[i], ps[i], c1));
                lemma_matches_mono(qs[i].1, ps[i].1, c1, c2);
            }
        },
        _ => {},
    }
}

/// Splitting the reference-node count of a sequence at one element.
pub proof fn lemma_ref_nodes_seq_split(s: Seq<JsVal>, i: int)
    requires
        0 <= i < s.len(),
    ensures
        js_ref_nodes_seq(s.skip(i)) == js_ref_nodes(s[i]) + js_ref_nodes_seq(s.skip(i + 1)),
    decreases i,
{
    if i == 0 {
        assert(s.skip(0) =~= s);
        assert(s.drop_first() =~= s.skip(1));
    } else {
        lemma_ref_nodes_seq_split(s.drop_first(), i - 1);
        assert(s.drop_first().skip(i - 1) =~= s.skip(i));
        assert(s.drop_first().skip(i) =~= s.skip(i + 1));
    }
}

pub proof fn lemma_ref_nodes_props_split(s: Seq<(Seq<char>, JsVal)>, i: int)
    requires
        0 <= i < s.len(),
    ensures
        js_ref_nodes_props(s.skip(i)) == js_ref_nodes(s[i].1) + js_ref_nodes_props(s.skip(i + 1)),
    decreases i,
{
    if i == 0 {
        assert(s.skip(0) =~= s);
        assert(s.drop_first() =~= s.skip(1));
    } else {
        lemma_ref_nodes_props_split(s.drop_first(), i - 1);
        assert(s.drop_first().skip(i - 1) =~= s.skip(i));
        assert(s.drop_first().skip(i) =~= s.skip(i + 1));
    }
}

impl EsValueFacade {
    /// Convert an engine boundary value into a portable facade, classifying
    /// it by kind: primitives are copied by value; array-like objects become
    /// ordered array facades; functions and promise-like objects are
    /// registered in the cached object table and carried by identifier; any
    /// other object becomes a map facade of its own properties.  Dates and
    /// big integers are rejected with an explicit unsupported-type error.
    pub fn from_jsval(cache: &mut CachedObjectTable, value: &JsValue) -> (r: Result<
        EsValueFacade,
        EsError,
    >)
        requires
            old(cache).wf(),
            old(cache).next_id_spec() + js_ref_nodes(js_val(*value)) <= i32::MAX,
        ensures
            final(cache).wf(),
            r is Ok <==> js_supported(js_val(*value)),
            r matches Ok(f) ==> facade_matches(es_val(f), js_val(*value), final(cache)@),
            forall|x: i32|
                cache_contains(old(cache)@, x) ==> #[trigger] cache_lookup(final(cache)@, x)
                    == cache_lookup(old(cache)@, x),
            old(cache).next_id_spec() <= final(cache).next_id_spec(),
            final(cache).next_id_spec() - old(cache).next_id_spec() == final(cache)@.len() - old(
                cache,
            )@.len(),
            final(cache).next_id_spec() <= old(cache).next_id_spec() + js_ref_nodes(
                js_val(*value),
            ),
            r is Ok ==> final(cache)@.len() == old(cache)@.len() + js_ref_nodes(js_val(*value)),
            r matches Err(e) ==> e@ == date_unsupported_msg() || e@ == bigint_unsupported_msg(),
            js_val(*value) is Date ==> (r matches Err(e) && e@ == date_unsupported_msg()),
            js_val(*value) is BigInt ==> (r matches Err(e) && e@ == bigint_unsupported_msg()),
        decreases *value,
    {
        match value {
            JsValue::Null => Ok(EsValueFacade { value: FacadeValue::Null }),
            JsValue::Undefined => Ok(EsValueFacade { value: FacadeValue::Undefined }),
            JsValue::Bool(b) => Ok(EsValueFacade { value: FacadeValue::Bool(*b) }),
            JsValue::Int(i) => Ok(EsValueFacade { value: FacadeValue::Int(*i) }),
            JsValue::Str(s) => Ok(EsValueFacade { value: FacadeValue::Str(clone_string(s)) }),
            JsValue::Function(h) => {
                let id = cache.cache(CachedHandle::Function(*h));
                Ok(EsValueFacade { value: FacadeValue::CachedFunction(id) })
            },
            JsValue::Promise(h) => {
                let id = cache.cache(CachedHandle::Promise(*h));
                Ok(EsValueFacade { value: FacadeValue::CachedPromise(id) })
            },
            JsValue::Date(_) => Err(EsError::new_str("dates are currently not supported")),
            JsValue::BigInt(_) => Err(EsError::new_str("BigInts are currently not supported")),
            JsValue::Array(elems) => Self::from_jsval_array(cache, elems),
            JsValue::Object(props) => Self::from_jsval_object(cache, props),
        }
    }

    /// Marshal an array-like engine value, element by element in index
    /// order.
    fn from_jsval_array(cache: &mut CachedObjectTable, elems: &Vec<JsValue>) -> (r: Result<
        EsValueFacade,
        EsError,
    >)
        requires
            old(cache).wf(),
            old(cache).next_id_spec() + js_ref_nodes(JsVal::Array(js_val_seq(elems@)))
                <= i32::MAX,
        ensures
            final(cache).wf(),
            r is Ok <==> js_supported(JsVal::Array(js_val_seq(elems@))),
            r matches Ok(f) ==> facade_matches(
                es_val(f),
                JsVal::Array(js_val_seq(elems@)),
                final(cache)@,
            ),
            forall|x: i32|
                cache_contains(old(cache)@, x) ==> #[trigger] cache_lookup(final(cache)@, x)
                    == cache_lookup(old(cache)@, x),
            old(cache).next_id_spec() <= final(cache).next_id_spec(),
            final(cache).next_id_spec() - old(cache).next_id_spec() == final(cache)@.len() - old(
                cache,
            )@.len(),
            final(cache).next_id_spec() <= old(cache).next_id_spec() + js_ref_nodes(
                JsVal::Array(js_val_seq(elems@)),
            ),
            r is Ok ==> final(cache)@.len() == old(cache)@.len() + js_ref_nodes(
                JsVal::Array(js_val_seq(elems@)),
            ),
            r matches Err(e) ==> e@ == date_unsupported_msg() || e@ == bigint_unsupported_msg(),
        decreases *elems,
    {
        let ghost jsq = js_val_seq(elems@);
        let ghost c0 = old(cache)@;
        let ghost n0 = old(cache).next_id_spec();
        proof {
            lemma_js_val_seq(elems@);
            assert(jsq.skip(0) =~= jsq);
        }
        let mut out: Vec<EsValueFacade> = Vec::new();
        let mut i: usize = 0;
        while i < elems.len()
            invariant
                c0 == old(cache)@,
                n0 == old(cache).next_id_spec(),
                jsq == js_val_seq(elems@),
                jsq.len() == elems@.len(),
                forall|k: int| 0 <= k < elems@.len() ==> #[trigger] jsq[k] == js_val(elems@[k]),
                n0 + js_ref_nodes_seq(jsq) <= i32::MAX,
                i <= elems@.len(),
                cache.wf(),
                out@.len() == i,
                forall|k: int|
                    0 <= k < i ==> #[trigger] facade_matches(es_val(out@[k]), jsq[k], cache@),
                forall|x: i32|
                    cache_contains(c0, x) ==> #[trigger] cache_lookup(cache@, x) == cache_lookup(
                        c0,
                        x,
                    ),
                n0 <= cache.next_id_spec(),
                cache.next_id_spec() - n0 == cache@.len() - c0.len(),
                cache.next_id_spec() + js_ref_nodes_seq(jsq.skip(i as int)) == n0
                    + js_ref_nodes_seq(jsq),
            decreases elems@.len() - i,
        {
            proof {
                lemma_ref_nodes_seq_split(jsq, i as int);
            }
            let ghost c_pre = cache@;
            let res = Self::from_jsval(cache, &elems[i]);
            match res {
                Ok(f) => {
                    proof {
                        assert forall|k: int| 0 <= k < i implies #[trigger] facade_matches(
                            es_val(out@[k]),
                            jsq[k],
                            cache@,
                        ) by {
                            lemma_matches_mono(es_val(out@[k]), jsq[k], c_pre, cache@);
                        }
                    }
                    out.push(f);
                },
                Err(e) => {
                    proof {
                        crate::jsval::lemma_supported_seq(jsq);
                    }
                    return Err(e);
                },
            }
            i = i + 1;
        }
        proof {
            assert(jsq.skip(i as int).len() == 0);
            lemma_es_val_seq(out@);
            crate::jsval::lemma_supported_seq(jsq);
            assert forall|k: int| 0 <= k < jsq.len() implies #[trigger] js_supported(jsq[k]) by {
                lemma_matches_supported(es_val(out@[k]), jsq[k], cache@);
            }
            lemma_matches_seq(es_val_seq(out@), jsq, cache@);
        }
        Ok(EsValueFacade { value: FacadeValue::Array(out) })
    }

    /// Marshal a plain object, enumerating its own properties in order.
    fn from_jsval_object(cache: &mut CachedObjectTable, props: &Vec<(String, JsValue)>) -> (r:
        Result<EsValueFacade, EsError>)
        requires
            old(cache).wf(),
            old(cache).next_id_spec() + js_ref_nodes(JsVal::Object(js_val_props(props@)))
                <= i32::MAX,
        ensures
            final(cache).wf(),
            r is Ok <==> js_supported(JsVal::Object(js_val_props(props@))),
            r matches Ok(f) ==> facade_matches(
                es_val(f),
                JsVal::Object(js_val_props(props@)),
                final(cache)@,
            ),
            forall|x: i32|
                cache_contains(old(cache)@, x) ==> #[trigger] cache_lookup(final(cache)@, x)
                    == cache_lookup(old(cache)@, x),
            old(cache).next_id_spec() <= final(cache).next_id_spec(),
            final(cache).next_id_spec() - old(cache).next_id_spec() == final(cache)@.len() - old(
                cache,
            )@.len(),
            final(cache).next_id_spec() <= old(cache).next_id_spec() + js_ref_nodes(
                JsVal::Object(js_val_props(props@)),
            ),
            r is Ok ==> final(cache)@.len() == old(cache)@.len() + js_ref_nodes(
                JsVal::Object(js_val_props(props@)),
            ),
            r matches Err(e) ==> e@ == date_unsupported_msg() || e@ == bigint_unsupported_msg(),
        decreases *props,
    {
        let ghost jsp = js_val_props(props@);
        let ghost c0 = old(cache)@;
        let ghost n0 = old(cache).next_id_spec();
        proof {
            lemma_js_val_props(props@);
            assert(jsp.skip(0) =~= jsp);
        }
        let mut out: Vec<(String, EsValueFacade)> = Vec::new();
        let mut i: usize = 0;
        while i < props.len()
            invariant
                c0 == old(cache)@,
                n0 == old(cache).next_id_spec(),
                jsp == js_val_props(props@),
                jsp.len() == props@.len(),
                forall|k: int|
                    0 <= k < props@.len() ==> #[trigger] jsp[k] == (
                    props@[k].0@,
                    js_val(props@[k].1),
                    ),
                n0 + js_ref_nodes_props(jsp) <= i32::MAX,
                i <= props@.len(),
                cache.wf(),
                out@.len() == i,
                forall|k: int| #![trigger out@[k]] 0 <= k < i ==> out@[k].0@ == jsp[k].0,
                forall|k: int|
                    0 <= k < i ==> #[trigger] facade_matches(
                        es_val(out@[k].1),
                        jsp[k].1,
                        cache@,
                    ),
                forall|x: i32|
                    cache_contains(c0, x) ==> #[trigger] cache_lookup(cache@, x) == cache_lookup(
                        c0,
                        x,
                    ),
                n0 <= cache.next_id_spec(),
                cache.next_id_spec() - n0 == cache@.len() - c0.len(),
                cache.next_id_spec() + js_ref_nodes_props(jsp.skip(i as int)) == n0
                    + js_ref_nodes_props(jsp),
            decreases props@.len() - i,
        {
            proof {
                lemma_ref_nodes_props_split(jsp, i as int);
            }
            let ghost c_pre = cache@;
            let key = clone_string(&props[i].0);
            let res = Self::from_jsval(cache, &props[i].1);
            match res {
                Ok(f) => {
                    proof {
                        assert forall|k: int| 0 <= k < i implies #[trigger] facade_matches(
                            es_val(out@[k].1),
                            jsp[k].1,
                            cache@,
                        ) by {
                            lemma_matches_mono(es_val(out@[k].1), jsp[k].1, c_pre, cache@);
                        }
                    }
                    out.push((key, f));
                },
                Err(e) => {
                    proof {
                        crate::jsval::lemma_supported_props(jsp);
                    }
                    return Err(e);
                },
            }
            i = i + 1;
        }
        proof {
            assert(jsp.skip(i as int).len() == 0);
            lemma_es_val_props(out@);
            crate::jsval::lemma_supported_props(jsp);
            assert forall|k: int| 0 <= k < jsp.len() implies #[trigger] js_supported(jsp[k].1) by {
                lemma_matches_supported(es_val(out@[k].1), jsp[k].1, cache@);
            }
            lemma_matches_props(es_val_props(out@), jsp, cache@);
            assert forall|k: int| 0 <= k < jsp.len() implies #[trigger] props_entry_matches(
                es_val_props(out@)[k],
                jsp[k],
                cache@,
            ) by {
                assert(es_val_props(out@)[k] == (out@[k].0@, es_val(out@[k].1)));
                assert(out@[k].0@ == jsp[k].0);
                assert(facade_matches(es_val(out@[k].1), jsp[k].1, cache@));
            }
        }
        Ok(EsValueFacade { value: FacadeValue::Object(out) })
    }
}

/// Whether every cached identifier the facade mentions is live in the
/// table, with the right kind of retained handle.
pub open spec fn facade_valid(e: EsVal, c: Seq<(i32, CachedHandle)>) -> bool
    decreases e,
{
    match e {
        EsVal::Array(es) => facade_valid_seq(es, c),
        EsVal::Object(qs) => facade_valid_props(qs, c),
        EsVal::CachedFunction(id) => cache_lookup(c, id) matches Option::Some(
            CachedHandle::Function(_),
        ),
        EsVal::CachedPromise(id) => cache_lookup(c, id) matches Option::Some(
            CachedHandle::Promise(_),
        ),
        _ => true,
    }
}

pub open spec fn facade_valid_seq(es: Seq<EsVal>, c: Seq<(i32, CachedHandle)>) -> bool
    decreases es,
{
    if es.len() == 0 {
        true
    } else {
        facade_valid(es[0], c) && facade_valid_seq(es.drop_first(), c)
    }
}

pub open spec fn facade_valid_props(
    qs: Seq<(Seq<char>, EsVal)>,
    c: Seq<(i32, CachedHandle)>,
) -> bool
    decreases qs,
{
    if qs.len() == 0 {
        true
    } else {
        facade_valid(qs[0].1, c) && facade_valid_props(qs.drop_first(), c)
    }
}

/// A sequence of facades is valid exactly when each element is.
pub proof fn lemma_valid_seq(es: Seq<EsVal>, c: Seq<(i32, CachedHandle)>)
    ensures
        facade_valid_seq(es, c) <==> (forall|i: int|
            0 <= i < es.len() ==> #[trigger] facade_valid(es[i], c)),
    decreases es.len(),
{
    if es.len() > 0 {
        let rest = es.drop_first();
        lemma_valid_seq(rest, c);
        if facade_valid_seq(es, c) {
            assert forall|i: int| 0 <= i < es.len() implies #[trigger] facade_valid(es[i], c) by {
                if i > 0 {
                    assert(facade_valid(rest[i - 1], c));
                    assert(rest[i - 1] == es[i]);
                }
            }
        }
        if forall|i: int| 0 <= i < es.len() ==> #[trigger] facade_valid(es[i], c) {
            assert forall|i: int| 0 <= i < rest.len() implies #[trigger] facade_valid(
                rest[i],
                c,
            ) by {
                assert(rest[i] == es[i + 1]);
                assert(facade_valid(es[i + 1], c));
            }
            assert(facade_valid(es[0], c));
            assert(facade_valid_seq(rest, c));
        }
    }
}

/// A property list of facades is valid exactly when each value is.
pub proof fn lemma_valid_props(qs: Seq<(Seq<char>, EsVal)>, c: Seq<(i32, CachedHandle)>)
    ensures
        facade_valid_props(qs, c) <==> (forall|i: int|
            0 <= i < qs.len() ==> #[trigger] facade_valid(qs[i].1, c)),
    decreases qs.len(),
{
    if qs.len() > 0 {
        let rest = qs.drop_first();
        lemma_valid_props(rest, c);
        if facade_valid_props(qs, c) {
            assert forall|i: int| 0 <= i < qs.len() implies #[trigger] facade_valid(
                qs[i].1,
                c,
            ) by {
                if i > 0 {
                    assert(facade_valid(rest[i - 1].1, c));
                    assert(rest[i - 1] == qs[i]);
                }
            }
        }
        if forall|i: int| 0 <= i < qs.len() ==> #[trigger] facade_valid(qs[i].1, c) {
            assert forall|i: int| 0 <= i < rest.len() implies #[trigger] facade_valid(
                rest[i].1,
                c,
            ) by {
                assert(rest[i] == qs[i + 1]);
                assert(facade_valid(qs[i + 1].1, c));
            }
            assert(facade_valid(qs[0].1, c));
            assert(facade_valid_props(rest, c));
        }
    }
}

/// The engine object handle a live table entry retains.
pub open spec fn handle_obj(h: Option<CachedHandle>) -> u64 {
    match h {
        Option::Some(CachedHandle::Function(o)) => o,
        Option::Some(CachedHandle::Promise(o)) => o,
        Option::None => arbitrary(),
    }
}

/// The engine value a facade converts back into, under table `c`: the
/// inverse direction of marshalling.  Arrays and maps recurse in original
/// order; cached kinds resolve their identifier through the table.
pub open spec fn to_js_val(e: EsVal, c: Seq<(i32, CachedHandle)>) -> JsVal
    decreases e,
{
    match e {
        EsVal::Null => JsVal::Null,
        EsVal::Undefined => JsVal::Undefined,
        EsVal::Bool(b) => JsVal::Bool(b),
        EsVal::Int(i) => JsVal::Int(i),
        EsVal::Str(s) => JsVal::Str(s),
        EsVal::Array(es) => JsVal::Array(to_js_seq(es, c)),
        EsVal::Object(qs) => JsVal::Object(to_js_props(qs, c)),
        EsVal::CachedFunction(id) => JsVal::Function(handle_obj(cache_lookup(c, id))),
        EsVal::CachedPromise(id) => JsVal::Promise(handle_obj(cache_lookup(c, id))),
    }
}

pub open spec fn to_js_seq(es: Seq<EsVal>, c: Seq<(i32, CachedHandle)>) -> Seq<JsVal>
    decreases es,
{
    if es.len() == 0 {
        Seq::empty()
    } else {
        seq![to_js_val(es[0], c)] + to_js_seq(es.drop_first(), c)
    }
}

pub open spec fn to_js_props(
    qs: Seq<(Seq<char>, EsVal)>,
    c: Seq<(i32, CachedHandle)>,
) -> Seq<(Seq<char>, JsVal)>
    decreases qs,
{
    if qs.len() == 0 {
        Seq::empty()
    } else {
        seq![(qs[0].0, to_js_val(qs[0].1, c))] + to_js_props(qs.drop_first(), c)
    }
}

/// Each element of [`to_js_seq`] is the conversion of the matching element.
pub proof fn lemma_to_js_seq(es: Seq<EsVal>, c: Seq<(i32, CachedHandle)>)
    ensures
        to_js_seq(es, c).len() == es.len(),
        forall|i: int|
            0 <= i < es.len() ==> #[trigger] to_js_seq(es, c)[i] == to_js_val(es[i], c),
    decreases es.len(),
{
    if es.len() > 0 {
        lemma_to_js_seq(es.drop_first(), c);
    }
}

/// Each element of [`to_js_props`] keeps its key and converts its value.
pub proof fn lemma_to_js_props(qs: Seq<(Seq<char>, EsVal)>, c: Seq<(i32, CachedHandle)>)
    ensures
        to_js_props(qs, c).len() == qs.len(),
        forall|i: int|
            0 <= i < qs.len() ==> #[trigger] to_js_props(qs, c)[i] == (
            qs[i].0,
            to_js_val(qs[i].1, c),
            ),
    decreases qs.len(),
{
    if qs.len() > 0 {
        lemma_to_js_props(qs.drop_first(), c);
    }
}

impl EsValueFacade {
    /// Convert a portable facade into a live engine value, recursing into
    /// arrays and maps in original order; cached function and promise
    /// facades resolve to the retained engine object handle.  Every cached
    /// identifier the facade mentions must still be live.
    #[verifier::loop_isolation(false)]
    pub fn to_js_value(&self, cache: &CachedObjectTable) -> (r: JsValue)
        requires
            facade_valid(es_val(*self), cache@),
        ensures
            js_val(r) == to_js_val(es_val(*self), cache@),
        decreases *self,
    {
        match &self.value {
            FacadeValue::Null => JsValue::Null,
            FacadeValue::Undefined => JsValue::Undefined,
            FacadeValue::Bool(b) => JsValue::Bool(*b),
            FacadeValue::Int(i) => JsValue::Int(*i),
            FacadeValue::Str(s) => JsValue::Str(clone_string(s)),
            FacadeValue::CachedFunction(id) => {
                match cache.with_cached(*id) {
                    CachedHandle::Function(o) => JsValue::Function(o),
                    CachedHandle::Promise(_) => unreached(),
                }
            },
            FacadeValue::CachedPromise(id) => {
                match cache.with_cached(*id) {
                    CachedHandle::Promise(o) => JsValue::Promise(o),
                    CachedHandle::Function(_) => unreached(),
                }
            },
            FacadeValue::Array(elems) => {
                let ghost es = es_val_seq(elems@);
                proof {
                    lemma_es_val_seq(elems@);
                    lemma_valid_seq(es, cache@);
                }
                let mut out: Vec<JsValue> = Vec::new();
                let mut i: usize = 0;
                while i < elems.len()
                    invariant
                        es == es_val_seq(elems@),
                        es.len() == elems@.len(),
                        forall|k: int|
                            0 <= k < elems@.len() ==> #[trigger] es[k] == es_val(elems@[k]),
                        forall|k: int|
                            0 <= k < elems@.len() ==> #[trigger] facade_valid(es[k], cache@),
                        i <= elems@.len(),
                        out@.len() == i,
                        forall|k: int|
                            0 <= k < i ==> #[trigger] js_val(out@[k]) == to_js_val(es[k], cache@),
                    decreases elems@.len() - i,
                {
                    proof {
                        assert(es[i as int] == es_val(elems@[i as int]));
                        assert(facade_valid(es[i as int], cache@));
                    }
                    let v = elems[i].to_js_value(cache);
                    out.push(v);
                    i = i + 1;
                }
                proof {
                    lemma_js_val_seq(out@);
                    lemma_to_js_seq(es, cache@);
                    assert(js_val_seq(out@) =~= to_js_seq(es, cache@));
                }
                JsValue::Array(out)
            },
            FacadeValue::Object(props) => {
                let ghost qs = es_val_props(props@);
                proof {
                    lemma_es_val_props(props@);
                    lemma_valid_props(qs, cache@);
                }
                let mut out: Vec<(String, JsValue)> = Vec::new();
                let mut i: usize = 0;
                while i < props.len()
                    invariant
                        qs == es_val_props(props@),
                        qs.len() == props@.len(),
                        forall|k: int|
                            0 <= k < props@.len() ==> #[trigger] qs[k] == (
                            props@[k].0@,
                            es_val(props@[k].1),
                            ),
                        forall|k: int|
                            0 <= k < props@.len() ==> #[trigger] facade_valid(qs[k].1, cache@),
                        i <= props@.len(),
                        out@.len() == i,
                        forall|k: int| #![trigger out@[k]] 0 <= k < i ==> out@[k].0@ == qs[k].0,
                        forall|k: int|
                            0 <= k < i ==> #[trigger] js_val(out@[k].1) == to_js_val(
                                qs[k].1,
                                cache@,
                            ),
                    decreases props@.len() - i,
                {
                    proof {
                        assert(qs[i as int] == (props@[i as int].0@, es_val(props@[i as int].1)));
                        assert(facade_valid(qs[i as int].1, cache@));
                    }
                    let key = clone_string(&props[i].0);
                    let v = props[i].1.to_js_value(cache);
                    out.push((key, v));
                    i = i + 1;
                }
                proof {
                    lemma_js_val_props(out@);
                    lemma_to_js_props(qs, cache@);
                    assert(js_val_props(out@) =~= to_js_props(qs, cache@));
                }
                JsValue::Object(out)
            },
        }
    }
}

/// Whether the facade is built from primitives alone: no cached function or
/// promise identifiers anywhere.
pub open spec fn es_primitive_only(e: EsVal) -> bool
    decreases e,
{
    match e {
        EsVal::Array(es) => es_primitive_only_seq(es),
        EsVal::Object(qs) => es_primitive_only_props(qs),
        EsVal::CachedFunction(_) => false,
        EsVal::CachedPromise(_) => false,
        _ => true,
    }
}

pub open spec fn es_primitive_only_seq(es: Seq<EsVal>) -> bool
    decreases es,
{
    if es.len() == 0 {
        true
    } else {
        es_primitive_only(es[0]) && es_primitive_only_seq(es.drop_first())
    }
}

pub open spec fn es_primitive_only_props(qs: Seq<(Seq<char>, EsVal)>) -> bool
    decreases qs,
{
    if qs.len() == 0 {
        true
    } else {
        es_primitive_only(qs[0].1) && es_primitive_only_props(qs.drop_first())
    }
}

/// A sequence is primitive-only exactly when each element is.
pub proof fn lemma_primitive_only_seq(es: Seq<EsVal>)
    ensures
        es_primitive_only_seq(es) <==> (forall|i: int|
            0 <= i < es.len() ==> #[trigger] es_primitive_only(es[i])),
    decreases es.len(),
{
    if es.len() > 0 {
        let rest = es.drop_first();
        lemma_primitive_only_seq(rest);
        if es_primitive_only_seq(es) {
            assert forall|i: int| 0 <= i < es.len() implies #[trigger] es_primitive_only(
                es[i],
            ) by {
                if i > 0 {
                    assert(es_primitive_only(rest[i - 1]));
                    assert(rest[i - 1] == es[i]);
                }
            }
        }
        if forall|i: int| 0 <= i < es.len() ==> #[trigger] es_primitive_only(es[i]) {
            assert forall|i: int| 0 <= i < rest.len() implies #[trigger] es_primitive_only(
                rest[i],
            ) by {
                assert(rest[i] == es[i + 1]);
                assert(es_primitive_only(es[i + 1]));
            }
            assert(es_primitive_only(es[0]));
            assert(es_primitive_only_seq(rest));
        }
    }
}

/// A property list is primitive-only exactly when each value is.
pub proof fn lemma_primitive_only_props(qs: Seq<(Seq<char>, EsVal)>)
    ensures
        es_primitive_only_props(qs) <==> (forall|i: int|
            0 <= i < qs.len() ==> #[trigger] es_primitive_only(qs[i].1)),
    decreases qs.len(),
{
    if qs.len() > 0 {
        let rest = qs.drop_first();
        lemma_primitive_only_props(rest);
        if es_primitive_only_props(qs) {
            assert forall|i: int| 0 <= i < qs.len() implies #[trigger] es_primitive_only(
                qs[i].1,
            ) by {
                if i > 0 {
                    assert(es_primitive_only(rest[i - 1].1));
                    assert(rest[i - 1] == qs[i]);
                }
            }
        }
        if forall|i: int| 0 <= i < qs.len() ==> #[trigger] es_primitive_only(qs[i].1) {
            assert forall|i: int| 0 <= i < rest.len() implies #[trigger] es_primitive_only(
                rest[i].1,
            ) by {
                assert(rest[i] == qs[i + 1]);
                assert(es_primitive_only(qs[i + 1].1));
            }
            assert(es_primitive_only(qs[0].1));
            assert(es_primitive_only_props(rest));
        }
    }
}

/// Converting a primitive-only facade to an engine value yields a supported
/// value that registers nothing in the cached object table.
pub proof fn lemma_primitive_to_js(e: EsVal, c: Seq<(i32, CachedHandle)>)
    requires
        es_primitive_only(e),
    ensures
        js_supported(to_js_val(e, c)),
        js_ref_nodes(to_js_val(e, c)) == 0,
    decreases e,
{
    match e {
        EsVal::Array(es) => {
            let js = to_js_seq(es, c);
            lemma_primitive_only_seq(es);
            lemma_to_js_seq(es, c);
            crate::jsval::lemma_supported_seq(js);
            assert forall|i: int| 0 <= i < js.len() implies #[trigger] js_supported(js[i]) by {
                assert(es_primitive_only(es[i]));
                lemma_primitive_to_js(es[i], c);
            }
            assert forall|i: int| 0 <= i < js.len() implies #[trigger] js_ref_nodes(js[i])
                == 0 by {
                assert(es_primitive_only(es[i]));
                lemma_primitive_to_js(es[i], c);
            }
            lemma_ref_nodes_seq_zero(js);
        },
        EsVal::Object(qs) => {
            let ps = to_js_props(qs, c);
            lemma_primitive_only_props(qs);
            lemma_to_js_props(qs, c);
            crate::jsval::lemma_supported_props(ps);
            assert forall|i: int| 0 <= i < ps.len() implies #[trigger] js_supported(
                ps[i].1,
            ) by {
                assert(es_primitive_only(qs[i].1));
                lemma_primitive_to_js(qs[i].1, c);
            }
            assert forall|i: int| 0 <= i < ps.len() implies #[trigger] js_ref_nodes(ps[i].1)
                == 0 by {
                assert(es_primitive_only(qs[i].1));
                lemma_primitive_to_js(qs[i].1, c);
            }
            lemma_ref_nodes_props_zero(ps);
        },
        _ => {},
    }
}

/// A sequence whose elements register nothing registers nothing in all.
proof fn lemma_ref_nodes_seq_zero(js: Seq<JsVal>)
    requires
        forall|i: int| 0 <= i < js.len() ==> #[trigger] js_ref_nodes(js[i]) == 0,
    ensures
        js_ref_nodes_seq(js) == 0,
    decreases js.len(),
{
    if js.len() > 0 {
        assert(js_ref_nodes(js[0]) == 0);
        assert forall|i: int| 0 <= i < js.drop_first().len() implies #[trigger] js_ref_nodes(
            js.drop_first()[i],
        ) == 0 by {
            assert(js.drop_first()[i] == js[i + 1]);
            assert(js_ref_nodes(js[i + 1]) == 0);
        }
        lemma_ref_nodes_seq_zero(js.drop_first());
    }
}

proof fn lemma_ref_nodes_props_zero(ps: Seq<(Seq<char>, JsVal)>)
    requires
        forall|i: int| 0 <= i < ps.len() ==> #[trigger] js_ref_nodes(ps[i].1) == 0,
    ensures
        js_ref_nodes_props(ps) == 0,
    decreases ps.len(),
{
    if ps.len() > 0 {
        assert(js_ref_nodes(ps[0].1) == 0);
        assert forall|i: int| 0 <= i < ps.drop_first().len() implies #[trigger] js_ref_nodes(
            ps.drop_first()[i].1,
        ) == 0 by {
            assert(ps.drop_first()[i] == ps[i + 1]);
            assert(js_ref_nodes(ps[i + 1].1) == 0);
        }
        lemma_ref_nodes_props_zero(ps.drop_first());
    }
}

/// Round-trip law: a facade built from primitives alone, with arrays and
/// maps of any depth over them, is recovered exactly by converting it into
/// an engine value and marshalling that engine value back, whatever the
/// cached object table held at either end.
pub proof fn lemma_round_trip(
    e: EsVal,
    c: Seq<(i32, CachedHandle)>,
    e2: EsVal,
    c2: Seq<(i32, CachedHandle)>,
)
    requires
        es_primitive_only(e),
        facade_matches(e2, to_js_val(e, c), c2),
    ensures
        e2 == e,
    decreases e,
{
    match e {
        EsVal::Array(es) => {
            let js = to_js_seq(es, c);
            let es2 = e2->Array_0;
            lemma_primitive_only_seq(es);
            lemma_to_js_seq(es, c);
            lemma_matches_seq(es2, js, c2);
            assert forall|i: int| 0 <= i < es.len() implies es2[i] == #[trigger] es[i] by {
                assert(facade_matches(es2[i], js[i], c2));
                assert(js[i] == to_js_val(es[i], c));
                assert(es_primitive_only(es[i]));
                lemma_round_trip(es[i], c, es2[i], c2);
            }
            assert(es2 =~= es);
        },
        EsVal::Object(qs) => {
            let ps = to_js_props(qs, c);
            let qs2 = e2->Object_0;
            lemma_primitive_only_props(qs);
            lemma_to_js_props(qs, c);
            lemma_matches_props(qs2, ps, c2);
            assert forall|i: int| 0 <= i < qs.len() implies qs2[i] == #[trigger] qs[i] by {
                assert(props_entry_matches(qs2[i], ps[i], c2));
                assert(ps[i] == (qs[i].0, to_js_val(qs[i].1, c)));
                assert(es_primitive_only(qs[i].1));
                lemma_round_trip(qs[i].1, c, qs2[i].1, c2);
                assert(qs2[i].0 == qs[i].0);
                assert(qs2[i].1 == qs[i].1);
            }
            assert(qs2 =~= qs);
        },
        _ => {},
    }
}

fn clone_string(s: &String) -> (r: String)
    ensures
        r@ == s@,
{
    s.clone()
}

} // verus!
