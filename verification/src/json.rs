//! A plain JSON value that the library reads and builds, and its mathematical model.
use vstd::prelude::*;

verus! {

/// A JSON document.  Numbers keep the text by which they are written, and an
/// object keeps its members in order.
#[derive(Debug, PartialEq)]
pub enum JsonValue {
    Null,
    Bool(bool),
    Number(String),
    Str(String),
    Array(Vec<JsonValue>),
    Object(Vec<(String, JsonValue)>),
}

/// The mathematical model of a JSON document: strings are taken by their characters.
#[verifier::ext_equal]
pub enum JsonModel {
    Null,
    Bool(bool),
    Number(Seq<char>),
    Str(Seq<char>),
    Array(Seq<JsonModel>),
    Object(Seq<(Seq<char>, JsonModel)>),
}

impl JsonValue {
    pub open spec fn model(self) -> JsonModel
        decreases self,
    {
        match self {
            JsonValue::Null => JsonModel::Null,
            JsonValue::Bool(b) => JsonModel::Bool(b),
            JsonValue::Number(s) => JsonModel::Number(s@),
            JsonValue::Str(s) => JsonModel::Str(s@),
            JsonValue::Array(v) => JsonModel::Array(
                Seq::new(
                    v@.len(),
                    |i: int|
                        if 0 <= i < v@.len() {
                            v@[i].model()
                        } else {
                            JsonModel::Null
                        },
                ),
            ),
            JsonValue::Object(v) => JsonModel::Object(
                Seq::new(
                    v@.len(),
                    |i: int|
                        if 0 <= i < v@.len() {
                            (v@[i].0@, v@[i].1.model())
                        } else {
                            (Seq::empty(), JsonModel::Null)
                        },
                ),
            ),
        }
    }
}

/// The value of the first member named `key`, looking from position `i` on.
pub open spec fn member_from(fields: Seq<(Seq<char>, JsonModel)>, key: Seq<char>, i: int) -> Option<
    JsonModel,
>
    decreases fields.len() - i,
{
    if i < 0 || i >= fields.len() {
        None
    } else if fields[i].0 == key {
        Some(fields[i].1)
    } else {
        member_from(fields, key, i + 1)
    }
}

/// What indexing a value by a member name gives: the member of an object, and
/// nothing for any other value.
pub open spec fn member(m: JsonModel, key: Seq<char>) -> Option<JsonModel> {
    match m {
        JsonModel::Object(fields) => member_from(fields, key, 0),
        _ => None,
    }
}

/// The elements of an array, and no elements for any other value.
pub open spec fn elements_or_empty(m: JsonModel) -> Seq<JsonModel> {
    match m {
        JsonModel::Array(items) => items,
        _ => Seq::empty(),
    }
}

/// The number of members of an object, and zero for any other value.
pub open spec fn member_count(m: JsonModel) -> nat {
    match m {
        JsonModel::Object(fields) => fields.len(),
        _ => 0,
    }
}

impl JsonValue {
    /// A copy of the value, member by member.
    #[verifier::loop_isolation(false)]
    pub fn copy_value(&self) -> (r: JsonValue)
        ensures
            r.model() == self.model(),
        decreases self,
    {
        match self {
            JsonValue::Null => JsonValue::Null,
            JsonValue::Bool(b) => JsonValue::Bool(*b),
            JsonValue::Number(s) => JsonValue::Number(s.clone()),
            JsonValue::Str(s) => JsonValue::Str(s.clone()),
            JsonValue::Array(v) => {
                let mut out: Vec<JsonValue> = Vec::new();
                let n = v.len();
                for i in 0..n
                    invariant
                        n == v@.len(),
                        out@.len() == i,
                        forall|j: int| 0 <= j < i ==> #[trigger] out@[j].model() == v@[j].model(),
                {
                    proof {
                        assert(decreases_to!(*self => *v));
                        assert(decreases_to!(*v => v@));
                        assert(decreases_to!(v@ => v@[i as int]));
                    }
                    let c = v[i].copy_value();
                    out.push(c);
                }
                let r = JsonValue::Array(out);
                assert(r.model()->Array_0.len() == self.model()->Array_0.len());
                assert forall|j: int| 0 <= j < n implies #[trigger] r.model()->Array_0[j] == self.model()->Array_0[j] by {
                    assert(r.model()->Array_0[j] == out@[j].model());
                    assert(self.model()->Array_0[j] == v@[j].model());
                }
                assert(r.model()->Array_0 =~= self.model()->Array_0);
                r
            },
            JsonValue::Object(v) => {
                let mut out: Vec<(String, JsonValue)> = Vec::new();
                let n = v.len();
                for i in 0..n
                    invariant
                        n == v@.len(),
                        out@.len() == i,
                        forall|j: int|
                            0 <= j < i ==> #[trigger] out@[j].0@ == v@[j].0@ && out@[j].1.model()
                                == v@[j].1.model(),
                {
                    proof {
                        assert(decreases_to!(*self => *v));
                        assert(decreases_to!(*v => v@));
                        assert(decreases_to!(v@ => v@[i as int]));
                        assert(decreases_to!(v@[i as int] => v@[i as int].1));
                    }
                    let k = v[i].0.clone();
                    let c = v[i].1.copy_value();
                    out.push((k, c));
                }
                let r = JsonValue::Object(out);
                assert(r.model()->Object_0.len() == self.model()->Object_0.len());
                assert forall|j: int| 0 <= j < n implies #[trigger] r.model()->Object_0[j] == self.model()->Object_0[j] by {
                    assert(r.model()->Object_0[j] == (out@[j].0@, out@[j].1.model()));
                    assert(self.model()->Object_0[j] == (v@[j].0@, v@[j].1.model()));
                }
                assert(r.model()->Object_0 =~= self.model()->Object_0);
                r
            },
        }
    }

    /// The member named `key` of an object; `None` for a missing member or for a
    /// value that is not an object.
    #[verifier::loop_isolation(false)]
    pub fn get(&self, key: &String) -> (r: Option<&JsonValue>)
        ensures
            match r {
                Some(x) => member(self.model(), key@) == Some(x.model()),
                None => member(self.model(), key@) is None,
            },
    {
        match self {
            JsonValue::Object(v) => {
                let ghost fields = self.model()->Object_0;
                let n = v.len();
                let mut i: usize = 0;
                while i < n
                    invariant
                        n == v@.len(),
                        i <= n,
                        fields.len() == n,
                        forall|j: int| 0 <= j < n ==> #[trigger] fields[j] == (v@[j].0@, v@[j].1.model()),
                        member_from(fields, key@, 0) == member_from(fields, key@, i as int),
                    decreases n - i,
                {
                    if v[i].0 == *key {
                        assert(fields[i as int] == (v@[i as int].0@, v@[i as int].1.model()));
                        return Some(&v[i].1);
                    }
                    i = i + 1;
                }
                None
            },
            _ => None,
        }
    }

    /// The elements of an array; `None` for any other value.
    pub fn as_array(&self) -> (r: Option<&Vec<JsonValue>>)
        ensures
            match r {
                Some(v) => self matches JsonValue::Array(w) && v == w,
                None => !(self is Array),
            },
    {
        match self {
            JsonValue::Array(v) => Some(v),
            _ => None,
        }
    }

    /// The members of an object; `None` for any other value.
    pub fn as_object(&self) -> (r: Option<&Vec<(String, JsonValue)>>)
        ensures
            match r {
                Some(v) => self matches JsonValue::Object(w) && v == w,
                None => !(self is Object),
            },
    {
        match self {
            JsonValue::Object(v) => Some(v),
            _ => None,
        }
    }

    /// The number of members of an object, and zero for any other value.
    pub fn member_count(&self) -> (r: usize)
        ensures
            r == member_count(self.model()),
    {
        match self {
            JsonValue::Object(v) => v.len(),
            _ => 0,
        }
    }
}

/// The members of an object, by their models.
pub open spec fn fields_model(fields: Seq<(String, JsonValue)>) -> Seq<(Seq<char>, JsonModel)> {
    fields.map_values(|f: (String, JsonValue)| (f.0@, f.1.model()))
}

/// The elements of an array, by their models.
pub open spec fn items_model(items: Seq<JsonValue>) -> Seq<JsonModel> {
    items.map_values(|x: JsonValue| x.model())
}

pub proof fn lemma_object_model(fields: Vec<(String, JsonValue)>)
    ensures
        JsonValue::Object(fields).model() == JsonModel::Object(fields_model(fields@)),
{
    let j = JsonValue::Object(fields);
    assert(j.model()->Object_0.len() == fields_model(fields@).len());
    assert forall|i: int| 0 <= i < fields@.len() implies #[trigger] j.model()->Object_0[i]
        == fields_model(fields@)[i] by {
        assert(j.model()->Object_0[i] == (fields@[i].0@, fields@[i].1.model()));
    }
    assert(j.model()->Object_0 =~= fields_model(fields@));
}

pub proof fn lemma_array_model(items: Vec<JsonValue>)
    ensures
        JsonValue::Array(items).model() == JsonModel::Array(items_model(items@)),
{
    let j = JsonValue::Array(items);
    assert(j.model()->Array_0.len() == items_model(items@).len());
    assert forall|i: int| 0 <= i < items@.len() implies #[trigger] j.model()->Array_0[i]
        == items_model(items@)[i] by {
        assert(j.model()->Array_0[i] == items@[i].model());
    }
    assert(j.model()->Array_0 =~= items_model(items@));
}

/// Appends a member to the members of an object being built.
pub(crate) fn push_member(fields: &mut Vec<(String, JsonValue)>, name: &str, value: JsonValue)
    ensures
        fields_model(final(fields)@) == fields_model(old(fields)@).push((name@, value.model())),
{
    let ghost m = value.model();
    fields.push((name.to_owned(), value));
    assert(fields_model(fields@) =~= fields_model(old(fields)@).push((name@, m)));
}

pub(crate) fn object_of(fields: Vec<(String, JsonValue)>) -> (r: JsonValue)
    ensures
        r.model() == JsonModel::Object(fields_model(fields@)),
{
    proof {
        lemma_object_model(fields);
    }
    JsonValue::Object(fields)
}

pub(crate) fn array_of(items: Vec<JsonValue>) -> (r: JsonValue)
    ensures
        r.model() == JsonModel::Array(items_model(items@)),
{
    proof {
        lemma_array_model(items);
    }
    JsonValue::Array(items)
}

} // verus!
