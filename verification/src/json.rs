//! A small structured-value tree, the JSON-equivalent shape in which the
//! state document and the model server's messages travel through the core.
//!
//! The surrounding program converts between this tree and its wire text;
//! the core only reads and builds trees. Numbers are carried as their
//! literal text so that nothing is lost in transit.

use vstd::prelude::*;

verus! {

broadcast use vstd::std_specs::vec::group_vec_axioms, vstd::seq::group_seq_axioms;

/// A structured value: the JSON-equivalent payload shape.
#[derive(Debug, PartialEq, Eq)]
pub enum JsonValue {
    Null,
    Bool(bool),
    /// A number, kept as the literal text it was written with.
    Num(String),
    Str(String),
    Arr(Vec<JsonValue>),
    Obj(Vec<(String, JsonValue)>),
}

/// The mathematical shape of a `JsonValue`.
pub enum JsonModel {
    Null,
    Bool(bool),
    Num(Seq<char>),
    Str(Seq<char>),
    Arr(Seq<JsonModel>),
    Obj(Seq<(Seq<char>, JsonModel)>),
}

impl JsonValue {
    /// The value as a mathematical tree of character sequences.
    pub open spec fn model(self) -> JsonModel
        decreases self,
    {
        match self {
            JsonValue::Null => JsonModel::Null,
            JsonValue::Bool(b) => JsonModel::Bool(b),
            JsonValue::Num(s) => JsonModel::Num(s@),
            JsonValue::Str(s) => JsonModel::Str(s@),
            JsonValue::Arr(items) => JsonModel::Arr(items_model(items@)),
            JsonValue::Obj(fields) => JsonModel::Obj(fields_model(fields@)),
        }
    }
}

/// The model of an array's item list.
pub open spec fn items_model(items: Seq<JsonValue>) -> Seq<JsonModel>
    decreases items,
{
    if items.len() == 0 {
        Seq::empty()
    } else {
        seq![items[0].model()] + items_model(items.drop_first())
    }
}

/// The model of an object's field list.
pub open spec fn fields_model(fields: Seq<(String, JsonValue)>) -> Seq<(Seq<char>, JsonModel)>
    decreases fields,
{
    if fields.len() == 0 {
        Seq::empty()
    } else {
        seq![(fields[0].0@, fields[0].1.model())] + fields_model(fields.drop_first())
    }
}

/// Whether an object's field list binds `key`.
pub open spec fn has_key(fields: Seq<(Seq<char>, JsonModel)>, key: Seq<char>) -> bool {
    exists|i: int| 0 <= i < fields.len() && fields[i].0 == key
}

/// The value bound to `key`, at its first occurrence.
pub open spec fn lookup(fields: Seq<(Seq<char>, JsonModel)>, key: Seq<char>) -> JsonModel
    decreases fields.len(),
{
    if fields.len() == 0 {
        JsonModel::Null
    } else if fields[0].0 == key {
        fields[0].1
    } else {
        lookup(fields.drop_first(), key)
    }
}

/// `items_model` maps the list element by element.
pub proof fn lemma_items_model(items: Seq<JsonValue>)
    ensures
        items_model(items).len() == items.len(),
        forall|i: int|
            0 <= i < items.len() ==> #[trigger] items_model(items)[i] == items[i].model(),
    decreases items,
{
    if items.len() > 0 {
        lemma_items_model(items.drop_first());
        assert forall|i: int| 0 <= i < items.len() implies #[trigger] items_model(items)[i]
            == items[i].model() by {
            if i > 0 {
                assert(items.drop_first()[i - 1] == items[i]);
            }
        }
    }
}

/// `fields_model` maps the field list pair by pair.
pub proof fn lemma_fields_model(fields: Seq<(String, JsonValue)>)
    ensures
        fields_model(fields).len() == fields.len(),
        forall|i: int|
            0 <= i < fields.len() ==> #[trigger] fields_model(fields)[i] == (
                fields[i].0@,
                fields[i].1.model(),
            ),
    decreases fields,
{
    if fields.len() > 0 {
        lemma_fields_model(fields.drop_first());
        assert forall|i: int| 0 <= i < fields.len() implies #[trigger] fields_model(fields)[i]
            == (fields[i].0@, fields[i].1.model()) by {
            if i > 0 {
                assert(fields.drop_first()[i - 1] == fields[i]);
            }
        }
    }
}

/// A key that no field bears looks up to null.
pub proof fn lemma_lookup_absent(fm: Seq<(Seq<char>, JsonModel)>, key: Seq<char>)
    requires
        !has_key(fm, key),
    ensures
        lookup(fm, key) == JsonModel::Null,
    decreases fm.len(),
{
    if fm.len() > 0 {
        assert(fm[0].0 != key);
        assert(!has_key(fm.drop_first(), key)) by {
            if has_key(fm.drop_first(), key) {
                let w = choose|i: int|
                    0 <= i < fm.drop_first().len() && #[trigger] fm.drop_first()[i].0 == key;
                assert(fm[w + 1] == fm.drop_first()[w]);
            }
        }
        lemma_lookup_absent(fm.drop_first(), key);
    }
}

/// At the first index bearing `key`, `lookup` returns that value.
pub proof fn lemma_lookup_at(fm: Seq<(Seq<char>, JsonModel)>, key: Seq<char>, i: int)
    requires
        0 <= i < fm.len(),
        fm[i].0 == key,
        forall|j: int| 0 <= j < i ==> fm[j].0 != key,
    ensures
        has_key(fm, key),
        lookup(fm, key) == fm[i].1,
    decreases i,
{
    if i > 0 {
        lemma_lookup_at(fm.drop_first(), key, i - 1);
    }
}

impl JsonValue {
    /// The borrowed value bound to `key` in this object, if this is an
    /// object and the key is present.
    #[verifier::loop_isolation(false)]
    pub fn get<'a>(&'a self, key: &str) -> (r: Option<&'a JsonValue>)
        ensures
            match self.model() {
                JsonModel::Obj(fm) => {
                    &&& r is Some <==> has_key(fm, key@)
                    &&& r matches Some(v) ==> v.model() == lookup(fm, key@)
                },
                _ => r is None,
            },
    {
        proof {
            match self {
                JsonValue::Obj(fields) => {
                    lemma_fields_model(fields@);
                },
                _ => {},
            }
        }
        match self {
            JsonValue::Obj(fields) => {
                let ghost fm = fields_model(fields@);
                let n = fields.len();
                let mut i: usize = 0;
                while i < n
                    invariant
                        n == fields@.len() == fm.len(),
                        i <= n,
                        forall|j: int| 0 <= j < i ==> fm[j].0 != key@,
                        forall|j: int|
                            0 <= j < fields@.len() ==> fm[j] == (
                                #[trigger] fields@[j].0@,
                                fields@[j].1.model(),
                            ),
                        self == JsonValue::Obj(*fields),
                    decreases n - i,
                {
                    if crate::text::str_eq(fields[i].0.as_str(), key) {
                        proof {
                            lemma_lookup_at(fm, key@, i as int);
                        }
                        return Some(&fields[i].1);
                    }
                    i = i + 1;
                }
                proof {
                    assert(!has_key(fm, key@));
                }
                None
            },
            _ => None,
        }
    }

    /// The characters of this value, if it is a string.
    pub fn as_str<'a>(&'a self) -> (r: Option<&'a String>)
        ensures
            match self.model() {
                JsonModel::Str(s) => r matches Some(v) && v@ == s,
                _ => r is None,
            },
    {
        match self {
            JsonValue::Str(s) => Some(s),
            _ => None,
        }
    }

    /// The boolean held by this value, if it is one.
    pub fn as_bool(&self) -> (r: Option<bool>)
        ensures
            match self.model() {
                JsonModel::Bool(b) => r == Some(b),
                _ => r is None,
            },
    {
        match self {
            JsonValue::Bool(b) => Some(*b),
            _ => None,
        }
    }

    /// A deep copy with the same model.
    #[verifier::loop_isolation(false)]
    pub fn duplicate(&self) -> (r: JsonValue)
        ensures
            r.model() == self.model(),
        decreases self,
    {
        match self {
            JsonValue::Null => JsonValue::Null,
            JsonValue::Bool(b) => JsonValue::Bool(*b),
            JsonValue::Num(s) => JsonValue::Num(s.clone()),
            JsonValue::Str(s) => JsonValue::Str(s.clone()),
            JsonValue::Arr(items) => {
                let n = items.len();
                let mut out: Vec<JsonValue> = Vec::new();
                let mut i: usize = 0;
                while i < n
                    invariant
                        n == items@.len(),
                        i <= n,
                        out@.len() == i,
                        forall|j: int|
                            0 <= j < i ==> (#[trigger] out@[j]).model() == items@[j].model(),
                        *self == JsonValue::Arr(*items),
                    decreases n - i,
                {
                    proof {
                        assert(decreases_to!(*items => items@[i as int]));
                    }
                    let copy = items[i].duplicate();
                    out.push(copy);
                    i = i + 1;
                }
                proof {
                    lemma_items_model(items@);
                    lemma_items_model(out@);
                    assert forall|j: int| 0 <= j < items@.len() implies items_model(out@)[j]
                        == items_model(items@)[j] by {
                        assert(out@[j].model() == items@[j].model());
                    }
                    assert(items_model(out@) =~= items_model(items@));
                }
                JsonValue::Arr(out)
            },
            JsonValue::Obj(fields) => {
                let n = fields.len();
                let mut out: Vec<(String, JsonValue)> = Vec::new();
                let mut i: usize = 0;
                while i < n
                    invariant
                        n == fields@.len(),
                        i <= n,
                        out@.len() == i,
                        forall|j: int|
                            0 <= j < i ==> (#[trigger] out@[j]).0@ == fields@[j].0@
                                && out@[j].1.model() == fields@[j].1.model(),
                        *self == JsonValue::Obj(*fields),
                    decreases n - i,
                {
                    proof {
                        assert(decreases_to!(*fields => fields@[i as int]));
                    }
                    let key = fields[i].0.clone();
                    let copy = fields[i].1.duplicate();
                    out.push((key, copy));
                    i = i + 1;
                }
                proof {
                    lemma_fields_model(fields@);
                    lemma_fields_model(out@);
                    assert forall|j: int| 0 <= j < fields@.len() implies fields_model(out@)[j]
                        == fields_model(fields@)[j] by {
                        assert(out@[j].0@ == fields@[j].0@);
                        assert(out@[j].1.model() == fields@[j].1.model());
                    }
                    assert(fields_model(out@) =~= fields_model(fields@));
                }
                JsonValue::Obj(out)
            },
        }
    }
}

} // verus!
