//! A self-contained JSON value model.
//!
//! Variant values, evaluation defaults and context attributes are JSON
//! values. Numbers are carried in their canonical decimal form, which is the
//! form the operator evaluator coerces against, so the model stays exact.

use vstd::prelude::*;

verus! {

broadcast use vstd::std_specs::vec::group_vec_axioms, vstd::seq::axiom_seq_index_decreases;

/// An owned JSON value. `Num` holds the number's canonical decimal form.
#[derive(Debug, PartialEq, Eq)]
pub enum JsonVal {
    Null,
    Bool(bool),
    Num(String),
    Str(String),
    Arr(Vec<JsonVal>),
    Obj(Vec<(String, JsonVal)>),
}

/// The mathematical model of a JSON value.
pub enum JsonV {
    Null,
    Bool(bool),
    Num(Seq<char>),
    Str(Seq<char>),
    Arr(Seq<JsonV>),
    Obj(Seq<(Seq<char>, JsonV)>),
}

/// The model of a JSON value: strings become character sequences and
/// containers become sequences of models.
pub open spec fn jsonv(v: JsonVal) -> JsonV
    decreases v,
{
    match v {
        JsonVal::Null => JsonV::Null,
        JsonVal::Bool(b) => JsonV::Bool(b),
        JsonVal::Num(s) => JsonV::Num(s@),
        JsonVal::Str(s) => JsonV::Str(s@),
        JsonVal::Arr(items) => JsonV::Arr(
            Seq::new(
                items@.len(),
                |i: int|
                    if 0 <= i < items@.len() {
                        jsonv(items@[i])
                    } else {
                        JsonV::Null
                    },
            ),
        ),
        JsonVal::Obj(fields) => JsonV::Obj(
            Seq::new(
                fields@.len(),
                |i: int|
                    if 0 <= i < fields@.len() {
                        (fields@[i].0@, jsonv(fields@[i].1))
                    } else {
                        (Seq::<char>::empty(), JsonV::Null)
                    },
            ),
        ),
    }
}

impl View for JsonVal {
    type V = JsonV;

    open spec fn view(&self) -> JsonV {
        jsonv(*self)
    }
}

/// The model keeps the value's variant, and its payload up to views.
pub broadcast proof fn lemma_jsonv_shape(v: JsonVal)
    ensures
        (#[trigger] jsonv(v) is Null <==> v is Null),
        (jsonv(v) is Bool <==> v is Bool),
        (jsonv(v) is Num <==> v is Num),
        (jsonv(v) is Str <==> v is Str),
        (jsonv(v) is Arr <==> v is Arr),
        (jsonv(v) is Obj <==> v is Obj),
        v is Bool ==> jsonv(v)->Bool_0 == v->Bool_0,
        v is Num ==> jsonv(v)->Num_0 == v->Num_0@,
        v is Str ==> jsonv(v)->Str_0 == v->Str_0@,
        v is Arr ==> jsonv(v)->Arr_0.len() == v->Arr_0@.len() && (forall|i: int|
            0 <= i < v->Arr_0@.len() ==> #[trigger] jsonv(v)->Arr_0[i] == jsonv(v->Arr_0@[i])),
        v is Obj ==> jsonv(v)->Obj_0.len() == v->Obj_0@.len() && (forall|i: int|
            0 <= i < v->Obj_0@.len() ==> #[trigger] jsonv(v)->Obj_0[i] == (
                v->Obj_0@[i].0@,
                jsonv(v->Obj_0@[i].1),
            )),
{
    match v {
        JsonVal::Null => {},
        JsonVal::Bool(_) => {},
        JsonVal::Num(_) => {},
        JsonVal::Str(_) => {},
        JsonVal::Arr(_) => {},
        JsonVal::Obj(_) => {},
    }
}

impl Clone for JsonVal {
    /// Cloning preserves the model.
    #[verifier::loop_isolation(false)]
    fn clone(&self) -> (res: Self)
        ensures
            res@ == self@,
        decreases *self,
    {
        match self {
            JsonVal::Null => JsonVal::Null,
            JsonVal::Bool(b) => JsonVal::Bool(*b),
            JsonVal::Num(s) => JsonVal::Num(s.clone()),
            JsonVal::Str(s) => JsonVal::Str(s.clone()),
            JsonVal::Arr(items) => {
                let mut out: Vec<JsonVal> = Vec::new();
                let mut i: usize = 0;
                while i < items.len()
                    invariant
                        i <= items@.len(),
                        out@.len() == i,
                        forall|k: int| 0 <= k < i ==> jsonv(#[trigger] out@[k]) == jsonv(
                            items@[k],
                        ),
                    decreases items@.len() - i,
                {
                    proof {
                        assert(*self == JsonVal::Arr(*items));
                        assert(decreases_to!(JsonVal::Arr(*items) => *items));
                        assert(decreases_to!(*items => items@));
                        assert(decreases_to!(items@ => items@[i as int]));
                        assert(decreases_to!(*self => items@[i as int]));
                    }
                    out.push(items[i].clone());
                    i = i + 1;
                }
                proof {
                    assert(jsonv(JsonVal::Arr(out))->Arr_0 =~= jsonv(*self)->Arr_0);
                }
                JsonVal::Arr(out)
            },
            JsonVal::Obj(fields) => {
                let mut out: Vec<(String, JsonVal)> = Vec::new();
                let mut i: usize = 0;
                while i < fields.len()
                    invariant
                        i <= fields@.len(),
                        out@.len() == i,
                        forall|k: int| 0 <= k < i ==> (#[trigger] out@[k]).0@ == fields@[k].0@
                            && jsonv(out@[k].1) == jsonv(fields@[k].1),
                    decreases fields@.len() - i,
                {
                    proof {
                        assert(*self == JsonVal::Obj(*fields));
                        assert(decreases_to!(JsonVal::Obj(*fields) => *fields));
                        assert(decreases_to!(*fields => fields@));
                        assert(decreases_to!(fields@ => fields@[i as int]));
                        assert(decreases_to!(fields@[i as int] => fields@[i as int].1));
                        assert(decreases_to!(*self => fields@[i as int].1));
                    }
                    let key: String = fields[i].0.clone();
                    let val: JsonVal = fields[i].1.clone();
                    out.push((key, val));
                    i = i + 1;
                }
                proof {
                    assert(jsonv(JsonVal::Obj(out))->Obj_0 =~= jsonv(*self)->Obj_0);
                }
                JsonVal::Obj(out)
            },
        }
    }
}

} // verus!
