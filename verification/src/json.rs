//! JSON values, as far as they are looked into: texts, lists and fields.
use crate::text::same_text;
use vstd::prelude::*;

verus! {

/// What a JSON value says. Numbers, booleans and null are not told apart.
pub ghost enum JsonTree {
    Text(Seq<char>),
    List(Seq<JsonTree>),
    Fields(Seq<(Seq<char>, JsonTree)>),
    Other,
}

/// The value of the first field with a name.
pub open spec fn field_of(fields: Seq<(Seq<char>, JsonTree)>, name: Seq<char>) -> Option<JsonTree>
    decreases fields.len(),
{
    if fields.len() == 0 {
        None
    } else if fields[0].0 == name {
        Some(fields[0].1)
    } else {
        field_of(fields.skip(1), name)
    }
}

impl JsonTree {
    /// The field of an object with a name.
    pub open spec fn field(self, name: Seq<char>) -> Option<JsonTree> {
        match self {
            JsonTree::Fields(fields) => field_of(fields, name),
            _ => None,
        }
    }

    /// The text, if it is one.
    pub open spec fn text(self) -> Option<Seq<char>> {
        match self {
            JsonTree::Text(s) => Some(s),
            _ => None,
        }
    }

    /// The items, if it is a list.
    pub open spec fn items(self) -> Option<Seq<JsonTree>> {
        match self {
            JsonTree::List(items) => Some(items),
            _ => None,
        }
    }

    /// The text of a field.
    pub open spec fn field_text(self, name: Seq<char>) -> Option<Seq<char>> {
        match self.field(name) {
            Some(value) => value.text(),
            None => None,
        }
    }

    /// The items of a field.
    pub open spec fn field_items(self, name: Seq<char>) -> Option<Seq<JsonTree>> {
        match self.field(name) {
            Some(value) => value.items(),
            None => None,
        }
    }
}

/// A JSON value.
pub enum Json {
    Text(String),
    List(Vec<Json>),
    Fields(Vec<(String, Json)>),
    Other,
}

impl Json {
    /// What the value says.
    pub open spec fn tree(self) -> JsonTree
        decreases self,
    {
        match self {
            Json::Text(s) => JsonTree::Text(s@),
            Json::List(items) => JsonTree::List(
                Seq::new(
                    items@.len(),
                    |i: int|
                        if 0 <= i < items@.len() {
                            items@[i].tree()
                        } else {
                            JsonTree::Other
                        },
                ),
            ),
            Json::Fields(fields) => JsonTree::Fields(
                Seq::new(
                    fields@.len(),
                    |i: int|
                        if 0 <= i < fields@.len() {
                            (fields@[i].0@, fields@[i].1.tree())
                        } else {
                            (seq![], JsonTree::Other)
                        },
                ),
            ),
            Json::Other => JsonTree::Other,
        }
    }
}

/// What a list of values says.
pub open spec fn trees(list: Seq<Json>) -> Seq<JsonTree> {
    Seq::new(list.len(), |i: int| list[i].tree())
}

proof fn lemma_list_tree(items: Vec<Json>)
    ensures
        Json::List(items).tree() == JsonTree::List(trees(items@)),
{
    assert(Json::List(items).tree()->List_0 =~= trees(items@));
}

impl Json {
    /// The field of an object with a name.
    pub fn get(&self, name: &str) -> (r: Option<&Json>)
        ensures
            match r {
                Some(value) => self.tree().field(name@) == Some(value.tree()),
                None => self.tree().field(name@) is None,
            },
    {
        if let Json::Fields(fields) = self {
            let ghost all = self.tree()->Fields_0;
            let n: usize = fields.len();
            let mut i: usize = 0;
            assert(all.skip(0) =~= all);
            while i < n
                invariant
                    n == fields@.len(),
                    i <= n,
                    *self == Json::Fields(*fields),
                    self.tree() == JsonTree::Fields(all),
                    field_of(all, name@) == field_of(all.skip(i as int), name@),
                decreases n - i,
            {
                assert(all[i as int] == (fields@[i as int].0@, fields@[i as int].1.tree()));
                assert(all.skip(i as int)[0] == all[i as int]);
                assert(all.skip(i as int).skip(1) =~= all.skip(i + 1));
                if same_text(&fields[i].0, name) {
                    return Some(&fields[i].1);
                }
                i = i + 1;
            }
        }
        None
    }

    /// The text, if it is one.
    pub fn as_str(&self) -> (r: Option<&str>)
        ensures
            match r {
                Some(s) => self.tree().text() == Some(s@),
                None => self.tree().text() is None,
            },
    {
        match self {
            Json::Text(s) => Some(s.as_str()),
            _ => None,
        }
    }

    /// The items, if it is a list.
    pub fn as_array(&self) -> (r: Option<&Vec<Json>>)
        ensures
            match r {
                Some(items) => self.tree().items() == Some(trees(items@)),
                None => self.tree().items() is None,
            },
    {
        match self {
            Json::List(items) => {
                proof {
                    lemma_list_tree(*items);
                }
                Some(items)
            },
            _ => None,
        }
    }

    /// The text of a field.
    pub fn text_at(&self, name: &str) -> (r: Option<&str>)
        ensures
            match r {
                Some(s) => self.tree().field_text(name@) == Some(s@),
                None => self.tree().field_text(name@) is None,
            },
    {
        match self.get(name) {
            Some(value) => value.as_str(),
            None => None,
        }
    }

    /// The items of a field.
    pub fn items_at(&self, name: &str) -> (r: Option<&Vec<Json>>)
        ensures
            match r {
                Some(items) => self.tree().field_items(name@) == Some(trees(items@)),
                None => self.tree().field_items(name@) is None,
            },
    {
        match self.get(name) {
            Some(value) => value.as_array(),
            None => None,
        }
    }
}

// ---------------------------------------------------------------------------
// Parsing
// ---------------------------------------------------------------------------

/// The value type of `serde_json`.
#[verifier::external_type_specification]
#[verifier::external_body]
pub struct ExValue(serde_json::Value);

/// What a value of `serde_json` says.
pub uninterp spec fn value_tree(value: serde_json::Value) -> JsonTree;

/// What `serde_json::from_str` makes of a text: a value, or an error's text.
pub uninterp spec fn json_of_text(text: Seq<char>) -> Result<JsonTree, Seq<char>>;

/// What `serde_json::from_slice` makes of bytes: a value, or an error's text.
pub uninterp spec fn json_of_bytes(bytes: Seq<u8>) -> Result<JsonTree, Seq<char>>;

/// Calls `serde_json::from_str`: the value, or the text of the error, depends on
/// the text alone.
#[verifier::external_body]
fn value_of_text(text: &str) -> (r: Result<serde_json::Value, String>)
    ensures
        match r {
            Ok(value) => json_of_text(text@) == Ok::<JsonTree, Seq<char>>(value_tree(value)),
            Err(e) => json_of_text(text@) == Err::<JsonTree, Seq<char>>(e@),
        },
{
    serde_json::from_str::<serde_json::Value>(text).map_err(|e| e.to_string())
}

/// Calls `serde_json::from_slice`: the value, or the text of the error, depends
/// on the bytes alone.
#[verifier::external_body]
fn value_of_bytes(bytes: &[u8]) -> (r: Result<serde_json::Value, String>)
    ensures
        match r {
            Ok(value) => json_of_bytes(bytes@) == Ok::<JsonTree, Seq<char>>(value_tree(value)),
            Err(e) => json_of_bytes(bytes@) == Err::<JsonTree, Seq<char>>(e@),
        },
{
    serde_json::from_slice::<serde_json::Value>(bytes).map_err(|e| e.to_string())
}

/// One level of a value.
enum Node {
    Text(String),
    List(Vec<serde_json::Value>),
    Fields(Vec<(String, serde_json::Value)>),
    Other,
}

/// Takes a `serde_json::Value` apart, one level deep. A string holds its text, an
/// array its items in order, and an object its entries as its `Map` hands them
/// out.
#[verifier::external_body]
fn open_value(value: serde_json::Value) -> (r: Node)
    ensures
        match r {
            Node::Text(s) => value_tree(value) == JsonTree::Text(s@),
            Node::List(items) => value_tree(value) == JsonTree::List(
                Seq::new(items@.len(), |i: int| value_tree(items@[i])),
            ),
            Node::Fields(fields) => value_tree(value) == JsonTree::Fields(
                Seq::new(fields@.len(), |i: int| (fields@[i].0@, value_tree(fields@[i].1))),
            ),
            Node::Other => value_tree(value) == JsonTree::Other,
        },
{
    match value {
        serde_json::Value::String(s) => Node::Text(s),
        serde_json::Value::Array(items) => Node::List(items),
        serde_json::Value::Object(map) => Node::Fields(map.into_iter().collect()),
        serde_json::Value::Null => Node::Other,
        serde_json::Value::Bool(_) => Node::Other,
        serde_json::Value::Number(_) => Node::Other,
    }
}

fn to_json(value: serde_json::Value) -> (r: Json)
    ensures
        r.tree() == value_tree(value),
    decreases value_tree(value),
{
    let ghost whole = value_tree(value);
    match open_value(value) {
        Node::Text(s) => Json::Text(s),
        Node::Other => Json::Other,
        Node::List(items) => {
            let mut left: Vec<serde_json::Value> = items;
            let ghost goal = whole->List_0;
            let mut out: Vec<Json> = Vec::new();
            while left.len() > 0
                invariant
                    left@.len() + out@.len() == goal.len(),
                    whole == value_tree(value),
                    whole == JsonTree::List(goal),
                    forall|i: int|
                        0 <= i < left@.len() ==> value_tree(#[trigger] left@[i]) == goal[i
                            + out@.len()],
                    forall|i: int| 0 <= i < out@.len() ==> (#[trigger] out@[i]).tree() == goal[i],
                decreases left@.len(),
            {
                let first: serde_json::Value = left.remove(0);
                assert(value_tree(first) == goal[out@.len() as int]);
                assert(decreases_to!(whole => whole->List_0[out@.len() as int]));
                out.push(to_json(first));
            }
            proof {
                lemma_list_tree(out);
                assert(trees(out@) =~= goal);
            }
            Json::List(out)
        },
        Node::Fields(fields) => {
            let mut left: Vec<(String, serde_json::Value)> = fields;
            let ghost goal = whole->Fields_0;
            let mut out: Vec<(String, Json)> = Vec::new();
            while left.len() > 0
                invariant
                    left@.len() + out@.len() == goal.len(),
                    whole == value_tree(value),
                    whole == JsonTree::Fields(goal),
                    forall|i: int|
                        0 <= i < left@.len() ==> goal[i + out@.len()] == ((#[trigger] left@[i]).0@,
                            value_tree(left@[i].1)),
                    forall|i: int|
                        0 <= i < out@.len() ==> goal[i] == ((#[trigger] out@[i]).0@, out@[i].1.tree()),
                decreases left@.len(),
            {
                let first: (String, serde_json::Value) = left.remove(0);
                let (name, inner) = first;
                assert(goal[out@.len() as int] == (name@, value_tree(inner)));
                assert(decreases_to!(whole => whole->Fields_0[out@.len() as int].1));
                out.push((name, to_json(inner)));
            }
            let r: Json = Json::Fields(out);
            assert(r.tree()->Fields_0 =~= goal);
            r
        },
    }
}

/// What a result of parsing says.
pub open spec fn parsed(r: Result<Json, String>) -> Result<JsonTree, Seq<char>> {
    match r {
        Ok(value) => Ok(value.tree()),
        Err(e) => Err(e@),
    }
}

/// Parses a text.
pub fn parse_text(text: &str) -> (r: Result<Json, String>)
    ensures
        parsed(r) == json_of_text(text@),
{
    match value_of_text(text) {
        Ok(value) => Ok(to_json(value)),
        Err(e) => Err(e),
    }
}

/// Parses bytes.
pub fn parse_bytes(bytes: &[u8]) -> (r: Result<Json, String>)
    ensures
        parsed(r) == json_of_bytes(bytes@),
{
    match value_of_bytes(bytes) {
        Ok(value) => Ok(to_json(value)),
        Err(e) => Err(e),
    }
}

/// A field of an object is the first one of that name; other values have none.
pub proof fn law_first_field_counts(fields: Seq<(Seq<char>, JsonTree)>, name: Seq<char>, i: int)
    requires
        0 <= i < fields.len(),
        fields[i].0 == name,
        forall|j: int| 0 <= j < i ==> (#[trigger] fields[j]).0 != name,
    ensures
        JsonTree::Fields(fields).field(name) == Some(fields[i].1),
    decreases i,
{
    if i > 0 {
        let rest = fields.skip(1);
        assert(fields[0].0 != name);
        assert forall|j: int| 0 <= j < i - 1 implies (#[trigger] rest[j]).0 != name by {
            assert(rest[j] == fields[j + 1]);
        }
        law_first_field_counts(rest, name, i - 1);
    }
}

/// There is no field where no field has the name.
pub proof fn law_missing_field(fields: Seq<(Seq<char>, JsonTree)>, name: Seq<char>)
    requires
        forall|j: int| 0 <= j < fields.len() ==> (#[trigger] fields[j]).0 != name,
    ensures
        JsonTree::Fields(fields).field(name) is None,
    decreases fields.len(),
{
    if fields.len() > 0 {
        let rest = fields.skip(1);
        assert(fields[0].0 != name);
        assert forall|j: int| 0 <= j < rest.len() implies (#[trigger] rest[j]).0 != name by {
            assert(rest[j] == fields[j + 1]);
        }
        law_missing_field(rest, name);
    }
}

/// A field that is read as a text or as a list is that field, if it is one.
pub proof fn law_fields_are_read_as_they_are(value: JsonTree, name: Seq<char>)
    ensures
        value.field_text(name) == (match value.field(name) {
            Some(JsonTree::Text(s)) => Some(s),
            _ => None,
        }),
        value.field_items(name) == (match value.field(name) {
            Some(JsonTree::List(items)) => Some(items),
            _ => None,
        }),
        !(value is Fields) ==> value.field(name) is None,
{
}

} // verus!
