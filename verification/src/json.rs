//! JSON values as plain data.
use crate::text;
use std::collections::VecDeque;
use vstd::prelude::*;

verus! {

/// A JSON value. A number keeps the unsigned integer that it is, if it is one, and the bits of
/// its 64-bit float.
pub enum Json {
    Null,
    Bool(bool),
    Number { natural: Option<u64>, double: Option<u64> },
    Text(String),
    List(Vec<Json>),
    Object(Vec<(String, Json)>),
}

/// What a JSON value holds.
pub enum JsonModel {
    Null,
    Bool(bool),
    Number { natural: Option<u64>, double: Option<u64> },
    Text(Seq<char>),
    List(Seq<JsonModel>),
    Object(Seq<(Seq<char>, JsonModel)>),
}

/// The value of the first entry with this key.
pub open spec fn first_entry(entries: Seq<(Seq<char>, JsonModel)>, key: Seq<char>) -> Option<JsonModel>
    decreases entries.len(),
{
    if entries.len() == 0 {
        None
    } else if entries[0].0 == key {
        Some(entries[0].1)
    } else {
        first_entry(entries.drop_first(), key)
    }
}

impl JsonModel {
    /// The value under a key; only objects have any.
    pub open spec fn field(self, key: Seq<char>) -> Option<JsonModel> {
        match self {
            JsonModel::Object(entries) => first_entry(entries, key),
            _ => None,
        }
    }

    /// The unsigned integer that the value is.
    pub open spec fn natural(self) -> Option<u64> {
        match self {
            JsonModel::Number { natural, .. } => natural,
            _ => None,
        }
    }

    /// The bits of the 64-bit float that the value is.
    pub open spec fn double(self) -> Option<u64> {
        match self {
            JsonModel::Number { double, .. } => double,
            _ => None,
        }
    }

    /// The boolean that the value is.
    pub open spec fn truth(self) -> Option<bool> {
        match self {
            JsonModel::Bool(b) => Some(b),
            _ => None,
        }
    }

    /// The text that the value is.
    pub open spec fn text(self) -> Option<Seq<char>> {
        match self {
            JsonModel::Text(s) => Some(s),
            _ => None,
        }
    }

    /// The elements of the list that the value is.
    pub open spec fn list(self) -> Option<Seq<JsonModel>> {
        match self {
            JsonModel::List(s) => Some(s),
            _ => None,
        }
    }

    /// The entries of the object that the value is.
    pub open spec fn entries(self) -> Option<Seq<(Seq<char>, JsonModel)>> {
        match self {
            JsonModel::Object(s) => Some(s),
            _ => None,
        }
    }

    /// The unsigned integer under a key.
    pub open spec fn natural_at(self, key: Seq<char>) -> Option<u64> {
        match self.field(key) {
            Some(v) => v.natural(),
            None => None,
        }
    }

    /// The bits of the 64-bit float under a key.
    pub open spec fn double_at(self, key: Seq<char>) -> Option<u64> {
        match self.field(key) {
            Some(v) => v.double(),
            None => None,
        }
    }

    /// The boolean under a key.
    pub open spec fn truth_at(self, key: Seq<char>) -> Option<bool> {
        match self.field(key) {
            Some(v) => v.truth(),
            None => None,
        }
    }

    /// The text under a key.
    pub open spec fn text_at(self, key: Seq<char>) -> Option<Seq<char>> {
        match self.field(key) {
            Some(v) => v.text(),
            None => None,
        }
    }
}

impl Json {
    /// What the value holds.
    pub open spec fn view(self) -> JsonModel
        decreases self,
    {
        match self {
            Json::Null => JsonModel::Null,
            Json::Bool(b) => JsonModel::Bool(b),
            Json::Number { natural, double } => JsonModel::Number { natural, double },
            Json::Text(s) => JsonModel::Text(s@),
            Json::List(v) => JsonModel::List(
                Seq::new(
                    v@.len(),
                    |i: int|
                        if 0 <= i < v@.len() {
                            v@[i].view()
                        } else {
                            JsonModel::Null
                        },
                ),
            ),
            Json::Object(v) => JsonModel::Object(
                Seq::new(
                    v@.len(),
                    |i: int|
                        if 0 <= i < v@.len() {
                            (v@[i].0@, v@[i].1.view())
                        } else {
                            (Seq::empty(), JsonModel::Null)
                        },
                ),
            ),
        }
    }

    /// The value under a key: in an object, the first with that key.
    pub fn get(&self, key: &str) -> (r: Option<&Json>)
        ensures
            match r {
                Some(v) => self@.field(key@) == Some(v@),
                None => self@.field(key@) is None,
            },
    {
        match self {
            Json::Object(entries) => {
                let ghost all = self@.entries().unwrap();
                let mut i: usize = 0;
                assert(all.skip(0) =~= all);
                while i < entries.len()
                    invariant
                        self@ == JsonModel::Object(all),
                        *self == Json::Object(*entries),
                        all.len() == entries@.len(),
                        i <= entries@.len(),
                        first_entry(all, key@) == first_entry(all.skip(i as int), key@),
                    decreases entries.len() - i,
                {
                    assert(all[i as int] == (entries@[i as int].0@, entries@[i as int].1@));
                    if text::same(entries[i].0.as_str(), key) {
                        return Some(&entries[i].1);
                    }
                    assert(all.skip(i as int).drop_first() =~= all.skip(i + 1));
                    i = i + 1;
                }
                None
            },
            _ => None,
        }
    }

    /// The unsigned integer that the value is.
    pub fn as_u64(&self) -> (r: Option<u64>)
        ensures
            r == self@.natural(),
    {
        match self {
            Json::Number { natural, .. } => *natural,
            _ => None,
        }
    }

    /// The bits of the 64-bit float that the value is.
    pub fn as_f64(&self) -> (r: Option<u64>)
        ensures
            r == self@.double(),
    {
        match self {
            Json::Number { double, .. } => *double,
            _ => None,
        }
    }

    /// The boolean that the value is.
    pub fn as_bool(&self) -> (r: Option<bool>)
        ensures
            r == self@.truth(),
    {
        match self {
            Json::Bool(b) => Some(*b),
            _ => None,
        }
    }

    /// The text that the value is.
    pub fn as_str(&self) -> (r: Option<&str>)
        ensures
            match r {
                Some(s) => self@.text() == Some(s@),
                None => self@.text() is None,
            },
    {
        match self {
            Json::Text(s) => Some(s.as_str()),
            _ => None,
        }
    }

    /// The elements of the list that the value is.
    pub fn as_array(&self) -> (r: Option<&Vec<Json>>)
        ensures
            match r {
                Some(v) => {
                    &&& self@.list() is Some
                    &&& self@.list().unwrap().len() == v@.len()
                    &&& forall|i: int| 0 <= i < v@.len() ==> #[trigger] v@[i]@ == self@.list().unwrap()[i]
                },
                None => self@.list() is None,
            },
    {
        match self {
            Json::List(v) => Some(v),
            _ => None,
        }
    }

    /// The entries of the object that the value is.
    pub fn as_object(&self) -> (r: Option<&Vec<(String, Json)>>)
        ensures
            match r {
                Some(v) => {
                    &&& self@.entries() is Some
                    &&& self@.entries().unwrap().len() == v@.len()
                    &&& forall|i: int| 0 <= i < v@.len() ==> self@.entries().unwrap()[i] == (#[trigger] v@[i].0@, v@[i].1@)
                },
                None => self@.entries() is None,
            },
    {
        match self {
            Json::Object(v) => Some(v),
            _ => None,
        }
    }

    /// The unsigned integer under a key.
    pub fn u64_at(&self, key: &str) -> (r: Option<u64>)
        ensures
            r == self@.natural_at(key@),
    {
        match self.get(key) {
            Some(v) => v.as_u64(),
            None => None,
        }
    }

    /// The bits of the 64-bit float under a key.
    pub fn f64_at(&self, key: &str) -> (r: Option<u64>)
        ensures
            r == self@.double_at(key@),
    {
        match self.get(key) {
            Some(v) => v.as_f64(),
            None => None,
        }
    }

    /// The boolean under a key.
    pub fn bool_at(&self, key: &str) -> (r: Option<bool>)
        ensures
            r == self@.truth_at(key@),
    {
        match self.get(key) {
            Some(v) => v.as_bool(),
            None => None,
        }
    }

    /// The text under a key.
    pub fn str_at(&self, key: &str) -> (r: Option<&str>)
        ensures
            match r {
                Some(s) => self@.text_at(key@) == Some(s@),
                None => self@.text_at(key@) is None,
            },
    {
        match self.get(key) {
            Some(v) => v.as_str(),
            None => None,
        }
    }
}

/// What a `serde_json::Value` holds.
pub uninterp spec fn value_tree(value: serde_json::Value) -> JsonModel;

/// What `serde_json::from_str` makes of a text: a value, or the text of its error.
pub uninterp spec fn text_tree(text: Seq<char>) -> Result<JsonModel, Seq<char>>;

/// What `serde_json::from_slice` makes of bytes: a value, or the text of its error.
pub uninterp spec fn bytes_tree(bytes: Seq<u8>) -> Result<JsonModel, Seq<char>>;

/// `serde_json::Value` as an opaque type.
#[verifier::external_type_specification]
#[verifier::external_body]
pub struct ExValue(serde_json::Value);

/// Calls `serde_json::from_str`. The claim is that the outcome, the value or the text of the
/// error, depends on the characters of the argument alone.
#[verifier::external_body]
fn value_of_text(text: &str) -> (r: Result<serde_json::Value, String>)
    ensures
        match r {
            Ok(v) => text_tree(text@) == Ok::<JsonModel, Seq<char>>(value_tree(v)),
            Err(m) => text_tree(text@) == Err::<JsonModel, Seq<char>>(m@),
        },
{
    serde_json::from_str(text).map_err(|e| e.to_string())
}

/// Calls `serde_json::from_slice`. The claim is that the outcome, the value or the text of the
/// error, depends on the bytes alone.
#[verifier::external_body]
fn value_of_bytes(bytes: &[u8]) -> (r: Result<serde_json::Value, String>)
    ensures
        match r {
            Ok(v) => bytes_tree(bytes@) == Ok::<JsonModel, Seq<char>>(value_tree(v)),
            Err(m) => bytes_tree(bytes@) == Err::<JsonModel, Seq<char>>(m@),
        },
{
    serde_json::from_slice(bytes).map_err(|e| e.to_string())
}

/// The outermost layer of a value.
enum Layer {
    Null,
    Bool(bool),
    Number { natural: Option<u64>, double: Option<u64> },
    Text(String),
    List(VecDeque<serde_json::Value>),
    Object(VecDeque<(String, serde_json::Value)>),
}

impl Layer {
    /// What the value holds.
    spec fn tree(self) -> JsonModel {
        match self {
            Layer::Null => JsonModel::Null,
            Layer::Bool(b) => JsonModel::Bool(b),
            Layer::Number { natural, double } => JsonModel::Number { natural, double },
            Layer::Text(s) => JsonModel::Text(s@),
            Layer::List(v) => JsonModel::List(Seq::new(v@.len(), |i: int| value_tree(v@[i]))),
            Layer::Object(v) => JsonModel::Object(Seq::new(v@.len(), |i: int| (v@[i].0@, value_tree(v@[i].1)))),
        }
    }
}

/// Takes the outermost layer of a `serde_json::Value` apart, variant by variant; a number goes
/// through `Number::as_u64` and `Number::as_f64`, an object through `Map::into_iter`. The claim
/// is that a value holds what its parts hold.
#[verifier::external_body]
fn layer_of(value: serde_json::Value) -> (r: Layer)
    ensures
        r.tree() == value_tree(value),
{
    match value {
        serde_json::Value::Null => Layer::Null,
        serde_json::Value::Bool(b) => Layer::Bool(b),
        serde_json::Value::Number(n) => Layer::Number {
            natural: n.as_u64(),
            double: n.as_f64().map(|x| x.to_bits()),
        },
        serde_json::Value::String(s) => Layer::Text(s),
        serde_json::Value::Array(a) => Layer::List(a.into()),
        serde_json::Value::Object(o) => Layer::Object(o.into_iter().collect()),
    }
}

/// Moves a value over into plain data.
fn tree_of_value(value: serde_json::Value) -> (r: Json)
    ensures
        r@ == value_tree(value),
    decreases value_tree(value),
{
    let ghost whole = value_tree(value);
    match layer_of(value) {
        Layer::Null => Json::Null,
        Layer::Bool(b) => Json::Bool(b),
        Layer::Number { natural, double } => Json::Number { natural, double },
        Layer::Text(s) => Json::Text(s),
        Layer::List(v) => {
            let mut rest: VecDeque<serde_json::Value> = v;
            let ghost all = rest@;
            let mut list: Vec<Json> = Vec::new();
            while rest.len() > 0
                invariant
                    whole == value_tree(value),
                    whole == JsonModel::List(Seq::new(all.len(), |i: int| value_tree(all[i]))),
                    list@.len() + rest@.len() == all.len(),
                    forall|i: int| 0 <= i < list@.len() ==> (#[trigger] list@[i])@ == value_tree(all[i]),
                    forall|i: int| 0 <= i < rest@.len() ==> #[trigger] rest@[i] == all[list@.len() + i],
                decreases rest@.len(),
            {
                let ghost n = list@.len() as int;
                let first: Option<serde_json::Value> = rest.pop_front();
                match first {
                    Some(x) => {
                        proof {
                            assert(x == all[n]);
                            let model = Seq::new(all.len(), |i: int| value_tree(all[i]));
                            assert(model[n] == value_tree(x));
                            assert(decreases_to!(whole => whole->List_0));
                            assert(decreases_to!(model => model[n]));
                        }
                        list.push(tree_of_value(x));
                    },
                    None => {},
                }
            }
            let r: Json = Json::List(list);
            assert(r@->List_0 =~= whole->List_0);
            r
        },
        Layer::Object(v) => {
            let mut rest: VecDeque<(String, serde_json::Value)> = v;
            let ghost all = rest@;
            let mut list: Vec<(String, Json)> = Vec::new();
            while rest.len() > 0
                invariant
                    whole == value_tree(value),
                    whole == JsonModel::Object(Seq::new(all.len(), |i: int| (all[i].0@, value_tree(all[i].1)))),
                    list@.len() + rest@.len() == all.len(),
                    forall|i: int| 0 <= i < list@.len() ==> (#[trigger] list@[i]).0@ == all[i].0@ && list@[i].1@ == value_tree(all[i].1),
                    forall|i: int| 0 <= i < rest@.len() ==> #[trigger] rest@[i] == all[list@.len() + i],
                decreases rest@.len(),
            {
                let ghost n = list@.len() as int;
                let first: Option<(String, serde_json::Value)> = rest.pop_front();
                match first {
                    Some((key, x)) => {
                        proof {
                            assert((key, x) == all[n]);
                            let model = Seq::new(all.len(), |i: int| (all[i].0@, value_tree(all[i].1)));
                            assert(model[n] == (key@, value_tree(x)));
                            assert(decreases_to!(whole => whole->Object_0));
                            assert(decreases_to!(model => model[n]));
                            assert(decreases_to!(model[n] => model[n].1));
                        }
                        list.push((key, tree_of_value(x)));
                    },
                    None => {},
                }
            }
            let r: Json = Json::Object(list);
            assert(r@->Object_0 =~= whole->Object_0);
            r
        },
    }
}

/// Parses a text.
pub fn parse(text: &str) -> (r: Result<Json, String>)
    ensures
        match r {
            Ok(t) => text_tree(text@) == Ok::<JsonModel, Seq<char>>(t@),
            Err(m) => text_tree(text@) == Err::<JsonModel, Seq<char>>(m@),
        },
{
    match value_of_text(text) {
        Ok(v) => Ok(tree_of_value(v)),
        Err(m) => Err(m),
    }
}

/// Parses bytes.
pub fn parse_bytes(bytes: &[u8]) -> (r: Result<Json, String>)
    ensures
        match r {
            Ok(t) => bytes_tree(bytes@) == Ok::<JsonModel, Seq<char>>(t@),
            Err(m) => bytes_tree(bytes@) == Err::<JsonModel, Seq<char>>(m@),
        },
{
    match value_of_bytes(bytes) {
        Ok(v) => Ok(tree_of_value(v)),
        Err(m) => Err(m),
    }
}

} // verus!
