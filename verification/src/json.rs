//! The configuration document model: a generic JSON-like tree, together with
//! its mathematical model (`JsonModel`) and key lookup on objects.
//!
//! The document is produced by an external JSON parser outside this crate and
//! handed in as a plain tree. Resolution reads objects, arrays and strings;
//! numbers are carried through untouched, as their raw literal text.

use vstd::prelude::*;

use crate::text::str_eq;

verus! {

/// A parsed configuration document or a fragment of one.
#[derive(Debug)]
pub enum JsonValue {
    Null,
    Bool(bool),
    /// A numeric literal, kept as its raw text; resolution never reads it.
    Num(String),
    Str(String),
    Arr(Vec<JsonValue>),
    Obj(Vec<(String, JsonValue)>),
}

/// The mathematical model of a document: the same tree over `Seq`.
pub enum JsonModel {
    Null,
    Bool(bool),
    Num(Seq<char>),
    Str(Seq<char>),
    Arr(Seq<JsonModel>),
    Obj(Seq<(Seq<char>, JsonModel)>),
}

/// The model of a document value.
pub open spec fn jv_model(v: JsonValue) -> JsonModel
    decreases v,
{
    match v {
        JsonValue::Null => JsonModel::Null,
        JsonValue::Bool(b) => JsonModel::Bool(b),
        JsonValue::Num(s) => JsonModel::Num(s@),
        JsonValue::Str(s) => JsonModel::Str(s@),
        JsonValue::Arr(items) => JsonModel::Arr(arr_model(items@)),
        JsonValue::Obj(fields) => JsonModel::Obj(obj_model(fields@)),
    }
}

/// The models of an array's elements.
pub open spec fn arr_model(items: Seq<JsonValue>) -> Seq<JsonModel>
    decreases items,
{
    Seq::new(
        items.len(),
        |i: int|
            if 0 <= i < items.len() {
                jv_model(items[i])
            } else {
                JsonModel::Null
            },
    )
}

/// The models of an object's fields, keys as character sequences.
pub open spec fn obj_model(fields: Seq<(String, JsonValue)>) -> Seq<(Seq<char>, JsonModel)>
    decreases fields,
{
    Seq::new(
        fields.len(),
        |i: int|
            if 0 <= i < fields.len() {
                (fields[i].0@, jv_model(fields[i].1))
            } else {
                (Seq::<char>::empty(), JsonModel::Null)
            },
    )
}

impl View for JsonValue {
    type V = JsonModel;

    open spec fn view(&self) -> JsonModel {
        jv_model(*self)
    }
}

/// The model of an optional document value.
pub open spec fn opt_model(o: Option<JsonValue>) -> Option<JsonModel> {
    match o {
        Option::Some(v) => Option::Some(v@),
        Option::None => Option::None,
    }
}

impl Clone for JsonValue {
    /// Cloning preserves the model of the tree.
    #[verifier::loop_isolation(false)]
    fn clone(&self) -> (r: Self)
        ensures
            r@ == self@,
        decreases self,
    {
        match self {
            JsonValue::Null => JsonValue::Null,
            JsonValue::Bool(b) => JsonValue::Bool(*b),
            JsonValue::Num(s) => JsonValue::Num(s.clone()),
            JsonValue::Str(s) => JsonValue::Str(s.clone()),
            JsonValue::Arr(items) => {
                let n = items.len();
                let mut out: Vec<JsonValue> = Vec::new();
                let mut i: usize = 0;
                while i < n
                    invariant
                        n == items@.len(),
                        i <= n,
                        out@.len() == i,
                        forall|j: int| 0 <= j < i ==> out@[j]@ == items@[j]@,
                    decreases n - i,
                {
                    proof {
                        let ghost v0 = *self;
                        assert(*items == v0->Arr_0);
                        assert(decreases_to!(v0 => v0->Arr_0));
                        assert(decreases_to!(v0->Arr_0 => v0->Arr_0@));
                        assert(decreases_to!(v0->Arr_0@ => v0->Arr_0@[i as int]));
                    }
                    out.push(items[i].clone());
                    i = i + 1;
                }
                let r = JsonValue::Arr(out);
                proof {
                    assert(arr_model(out@) =~= arr_model(items@));
                }
                r
            },
            JsonValue::Obj(fields) => {
                let n = fields.len();
                let mut out: Vec<(String, JsonValue)> = Vec::new();
                let mut i: usize = 0;
                while i < n
                    invariant
                        n == fields@.len(),
                        i <= n,
                        out@.len() == i,
                        forall|j: int| #![all_triggers]
                            0 <= j < i ==> out@[j].0@ == fields@[j].0@ && out@[j].1@
                                == fields@[j].1@,
                    decreases n - i,
                {
                    proof {
                        let ghost v0 = *self;
                        assert(*fields == v0->Obj_0);
                        assert(decreases_to!(v0 => v0->Obj_0));
                        assert(decreases_to!(v0->Obj_0 => v0->Obj_0@));
                        assert(decreases_to!(v0->Obj_0@ => v0->Obj_0@[i as int]));
                        assert(decreases_to!(v0->Obj_0@[i as int] => v0->Obj_0@[i as int].1));
                    }
                    let p = &fields[i];
                    out.push((p.0.clone(), p.1.clone()));
                    i = i + 1;
                }
                let r = JsonValue::Obj(out);
                proof {
                    assert(obj_model(out@) =~= obj_model(fields@));
                }
                r
            },
        }
    }
}

/// First entry of an object's fields whose key matches, if any.
pub open spec fn obj_get(fields: Seq<(Seq<char>, JsonModel)>, key: Seq<char>) -> Option<JsonModel>
    decreases fields.len(),
{
    if fields.len() == 0 {
        Option::None
    } else if fields[0].0 == key {
        Option::Some(fields[0].1)
    } else {
        obj_get(fields.skip(1), key)
    }
}

/// Key lookup on a document: the first matching field of an object;
/// nothing on any other kind of value.
pub open spec fn doc_get(m: JsonModel, key: Seq<char>) -> Option<JsonModel> {
    match m {
        JsonModel::Obj(fields) => obj_get(fields, key),
        _ => Option::None,
    }
}

/// Looks a key up in a document, as `doc_get` describes.
pub fn json_get<'a>(v: &'a JsonValue, key: &str) -> (r: Option<&'a JsonValue>)
    ensures
        r matches Some(x) ==> doc_get(v@, key@) == Option::Some(x@),
        r is None ==> doc_get(v@, key@) is None,
{
    match v {
        JsonValue::Obj(fields) => {
            let ghost mf = obj_model(fields@);
            proof {
                assert(v@ == JsonModel::Obj(mf));
                assert(mf.skip(0) =~= mf);
            }
            let n = fields.len();
            let mut i: usize = 0;
            while i < n
                invariant
                    n == fields@.len(),
                    i <= n,
                    mf == obj_model(fields@),
                    doc_get(v@, key@) == obj_get(mf.skip(i as int), key@),
                decreases n - i,
            {
                let p = &fields[i];
                if str_eq(p.0.as_str(), key) {
                    return Some(&p.1);
                }
                proof {
                    assert(mf.skip(i as int).skip(1) =~= mf.skip(i + 1));
                }
                i = i + 1;
            }
            proof {
                assert(mf.skip(n as int) =~= Seq::<(Seq<char>, JsonModel)>::empty());
            }
            None
        },
        _ => None,
    }
}

} // verus!
