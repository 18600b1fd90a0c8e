//! JSON documents as plain trees, and the `serde_json` calls that read and
//! write them.
use serde_json::Error as JsonError;
use vstd::prelude::*;
use vstd::std_specs::cmp::PartialEqSpecImpl;
use crate::text::same;

verus! {

/// `serde_json::Value`, carried between the calls that make and take it.
#[verifier::external_type_specification]
#[verifier::external_body]
pub struct ExValue(serde_json::Value);

/// `serde_json::Number`, carried as it is: the library computes with none.
#[verifier::external_type_specification]
#[verifier::external_body]
pub struct ExNumber(serde_json::Number);

/// `serde_json::Error`, carried from a failed parse to the caller.
#[verifier::external_type_specification]
#[verifier::external_body]
pub struct ExJsonError(JsonError);

/// `Clone` of `serde_json::Number`: the copy is the same number.
pub assume_specification[ <serde_json::Number as std::clone::Clone>::clone ](
    n: &serde_json::Number,
) -> (r: serde_json::Number)
    ensures
        r == *n,
;

/// A JSON document.
///
/// Where an object names a member twice, the later one counts.
#[derive(Debug, Eq)]
pub enum Json {
    /// `null`.
    Null,
    /// `true` or `false`.
    Bool(bool),
    /// A number.
    Number(serde_json::Number),
    /// A string.
    Text(String),
    /// An array.
    Array(Vec<Json>),
    /// An object.
    Object(Vec<(String, Json)>),
}

/// The mathematical form of a [`Json`] document.
#[verifier::ext_equal]
pub enum JsonView {
    /// `null`.
    Null,
    /// `true` or `false`.
    Bool(bool),
    /// A number.
    Number(serde_json::Number),
    /// A string.
    Text(Seq<char>),
    /// An array.
    Array(Seq<JsonView>),
    /// An object.
    Object(Seq<MemberView>),
}

/// The mathematical form of one member of an object.
#[verifier::ext_equal]
pub struct MemberView {
    /// The name.
    pub name: Seq<char>,
    /// The value.
    pub value: JsonView,
}

impl View for Json {
    type V = JsonView;

    open spec fn view(&self) -> JsonView
        decreases self,
    {
        match self {
            Json::Null => JsonView::Null,
            Json::Bool(b) => JsonView::Bool(*b),
            Json::Number(n) => JsonView::Number(*n),
            Json::Text(s) => JsonView::Text(s@),
            Json::Array(items) => JsonView::Array(
                Seq::new(
                    items@.len(),
                    |i: int|
                        if 0 <= i < items@.len() {
                            items@[i].view()
                        } else {
                            JsonView::Null
                        },
                ),
            ),
            Json::Object(fields) => JsonView::Object(
                Seq::new(
                    fields@.len(),
                    |i: int|
                        if 0 <= i < fields@.len() {
                            MemberView { name: fields@[i].0@, value: fields@[i].1.view() }
                        } else {
                            MemberView { name: Seq::empty(), value: JsonView::Null }
                        },
                ),
            ),
        }
    }
}

/// The value of the last member of that name.
pub open spec fn member(fields: Seq<MemberView>, key: Seq<char>) -> Option<JsonView>
    decreases fields.len(),
{
    if fields.len() == 0 {
        None
    } else if fields.last().name == key {
        Some(fields.last().value)
    } else {
        member(fields.drop_last(), key)
    }
}

impl JsonView {
    /// The member of an object; nothing for any other document.
    pub open spec fn get(self, key: Seq<char>) -> Option<JsonView> {
        match self {
            JsonView::Object(fields) => member(fields, key),
            _ => None,
        }
    }

    /// The text of a string; nothing for any other document.
    pub open spec fn text(self) -> Option<Seq<char>> {
        match self {
            JsonView::Text(s) => Some(s),
            _ => None,
        }
    }

    /// The text of the member of that name, where it is a string.
    pub open spec fn get_text(self, key: Seq<char>) -> Option<Seq<char>> {
        match self.get(key) {
            Some(v) => v.text(),
            None => None,
        }
    }
}

/// The views of a row of documents.
pub open spec fn json_views(items: Seq<Json>) -> Seq<JsonView> {
    items.map_values(|j: Json| j@)
}

/// The views of the members of an object.
pub open spec fn field_views(fields: Seq<(String, Json)>) -> Seq<MemberView> {
    fields.map_values(|f: (String, Json)| MemberView { name: f.0@, value: f.1@ })
}

/// The view of an array is the row of the views of its items, that of an
/// object the row of the views of its members.
pub broadcast proof fn composite_views(j: Json)
    ensures
        j is Array ==> (#[trigger] j@) == JsonView::Array(json_views(j->Array_0@)),
        j is Object ==> j@ == JsonView::Object(field_views(j->Object_0@)),
{
    if j is Array {
        assert(j@->Array_0 =~= json_views(j->Array_0@));
    }
    if j is Object {
        assert(j@ is Object);
        assert(j@->Object_0.len() == j->Object_0@.len());
        assert(j@->Object_0 =~= field_views(j->Object_0@));
    }
}

/// The view of an optional document.
pub open spec fn json_option(j: Option<Json>) -> Option<JsonView> {
    match j {
        Some(v) => Some(v@),
        None => None,
    }
}

/// The empty object, `{}`.
pub open spec fn empty_object() -> JsonView {
    JsonView::Object(Seq::empty())
}

impl Clone for Json {
    fn clone(&self) -> (r: Json)
        ensures
            r@ == self@,
        decreases self,
    {
        match self {
            Json::Null => Json::Null,
            Json::Bool(b) => Json::Bool(*b),
            Json::Number(n) => Json::Number(n.clone()),
            Json::Text(s) => Json::Text(s.clone()),
            Json::Array(items) => {
                let mut copy: Vec<Json> = Vec::new();
                let mut i: usize = 0;
                while i < items.len()
                    invariant
                        i <= items.len(),
                        self == Json::Array(*items),
                        copy@.len() == i,
                        forall|j: int| 0 <= j < i ==> (#[trigger] copy@[j])@ == items@[j]@,
                    decreases items.len() - i,
                {
                    assert(decreases_to!(*self => self->Array_0));
                    assert(decreases_to!(*items => items@));
                    assert(decreases_to!(items@ => items@[i as int]));
                    copy.push(items[i].clone());
                    i += 1;
                }
                let r = Json::Array(copy);
                assert(r@->Array_0 =~= self@->Array_0);
                r
            },
            Json::Object(fields) => {
                let mut copy: Vec<(String, Json)> = Vec::new();
                let mut i: usize = 0;
                while i < fields.len()
                    invariant
                        i <= fields.len(),
                        self == Json::Object(*fields),
                        copy@.len() == i,
                        forall|j: int|
                            0 <= j < i ==> (#[trigger] copy@[j]).0@ == fields@[j].0@ && copy@[j].1@
                                == fields@[j].1@,
                    decreases fields.len() - i,
                {
                    assert(decreases_to!(*self => self->Object_0));
                    assert(decreases_to!(*fields => fields@));
                    assert(decreases_to!(fields@ => fields@[i as int]));
                    assert(decreases_to!(fields@[i as int] => fields@[i as int].1));
                    copy.push((fields[i].0.clone(), fields[i].1.clone()));
                    i += 1;
                }
                let r = Json::Object(copy);
                assert(r@->Object_0 =~= self@->Object_0);
                r
            },
        }
    }
}

/// What `==` of `serde_json::Number` says of two numbers.
pub uninterp spec fn numbers_equal(a: serde_json::Number, b: serde_json::Number) -> bool;

/// `==` of `serde_json::Number`: the same for the same two numbers.
#[verifier::external_body]
fn same_number(a: &serde_json::Number, b: &serde_json::Number) -> (r: bool)
    ensures
        r == numbers_equal(*a, *b),
{
    a == b
}

/// Whether a member counts: no later one has its name.
pub open spec fn counts(fields: Seq<MemberView>, i: int) -> bool {
    forall|j: int| i < j < fields.len() ==> (#[trigger] fields[j]).name != fields[i].name
}

/// Whether two documents are equal: arrays item by item, objects by their
/// members in whatever order.
pub open spec fn equal_documents(a: JsonView, b: JsonView) -> bool
    decreases a,
{
    match (a, b) {
        (JsonView::Null, JsonView::Null) => true,
        (JsonView::Bool(x), JsonView::Bool(y)) => x == y,
        (JsonView::Number(x), JsonView::Number(y)) => numbers_equal(x, y),
        (JsonView::Text(x), JsonView::Text(y)) => x == y,
        (JsonView::Array(x), JsonView::Array(y)) => {
            &&& x.len() == y.len()
            &&& forall|i: int| 0 <= i < x.len() ==> equal_documents(#[trigger] x[i], y[i])
        },
        (JsonView::Object(x), JsonView::Object(y)) => {
            &&& forall|i: int|
                0 <= i < x.len() && #[trigger] counts(x, i) ==> match member(y, x[i].name) {
                    Some(v) => equal_documents(x[i].value, v),
                    None => false,
                }
            &&& forall|j: int| 0 <= j < y.len() ==> member(x, (#[trigger] y[j]).name) is Some
        },
        _ => false,
    }
}

impl Json {
    fn counts_at(fields: &Vec<(String, Json)>, i: usize) -> (r: bool)
        requires
            i < fields.len(),
        ensures
            r == counts(field_views(fields@), i as int),
    {
        let ghost view = field_views(fields@);
        let mut j: usize = i + 1;
        while j < fields.len()
            invariant
                i < j <= fields.len(),
                i < fields.len(),
                view == field_views(fields@),
                forall|k: int| i < k < j ==> (#[trigger] view[k]).name != view[i as int].name,
            decreases fields.len() - j,
        {
            if same(fields[j].0.as_str(), fields[i].0.as_str()) {
                assert(view[j as int].name == view[i as int].name);
                return false;
            }
            assert(view[j as int].name != view[i as int].name);
            j += 1;
        }
        true
    }

    /// Whether the documents are equal: arrays item by item, objects by their
    /// members in whatever order.
    pub fn equals(&self, other: &Json) -> (r: bool)
        ensures
            r == equal_documents(self@, other@),
        decreases self,
    {
        proof {
            composite_views(*self);
            composite_views(*other);
        }
        match (self, other) {
            (Json::Null, Json::Null) => true,
            (Json::Bool(x), Json::Bool(y)) => *x == *y,
            (Json::Number(x), Json::Number(y)) => same_number(x, y),
            (Json::Text(x), Json::Text(y)) => same(x.as_str(), y.as_str()),
            (Json::Array(x), Json::Array(y)) => {
                let ghost a = json_views(x@);
                let ghost b = json_views(y@);
                if x.len() != y.len() {
                    assert(a.len() != b.len());
                    return false;
                }
                let mut i: usize = 0;
                while i < x.len()
                    invariant
                        i <= x.len(),
                        x.len() == y.len(),
                        *self == Json::Array(*x),
                        a == json_views(x@),
                        b == json_views(y@),
                        self@ == JsonView::Array(a),
                        other@ == JsonView::Array(b),
                        forall|k: int| 0 <= k < i ==> equal_documents(#[trigger] a[k], b[k]),
                    decreases x.len() - i,
                {
                    assert(decreases_to!(*self => self->Array_0));
                    assert(decreases_to!(*x => x@));
                    assert(decreases_to!(x@ => x@[i as int]));
                    assert(a[i as int] == x@[i as int]@ && b[i as int] == y@[i as int]@);
                    if !x[i].equals(&y[i]) {
                        assert(!equal_documents(a[i as int], b[i as int]));
                        return false;
                    }
                    i += 1;
                }
                true
            },
            (Json::Object(x), Json::Object(y)) => {
                let ghost a = field_views(x@);
                let ghost b = field_views(y@);
                let mut i: usize = 0;
                while i < x.len()
                    invariant
                        i <= x.len(),
                        *self == Json::Object(*x),
                        a == field_views(x@),
                        b == field_views(y@),
                        self@ == JsonView::Object(a),
                        other@ == JsonView::Object(b),
                        forall|k: int|
                            0 <= k < i && #[trigger] counts(a, k) ==> match member(b, a[k].name) {
                                Some(v) => equal_documents(a[k].value, v),
                                None => false,
                            },
                    decreases x.len() - i,
                {
                    assert(decreases_to!(*self => self->Object_0));
                    assert(decreases_to!(*x => x@));
                    assert(decreases_to!(x@ => x@[i as int]));
                    assert(decreases_to!(x@[i as int] => x@[i as int].1));
                    assert(a[i as int] == (MemberView {
                        name: x@[i as int].0@,
                        value: x@[i as int].1@,
                    }));
                    if Json::counts_at(x, i) {
                        assert(counts(a, i as int));
                        match other.get(x[i].0.as_str()) {
                            Some(v) => {
                                if !x[i].1.equals(v) {
                                    return false;
                                }
                            },
                            None => {
                                return false;
                            },
                        }
                    }
                    i += 1;
                }
                let mut j: usize = 0;
                while j < y.len()
                    invariant
                        j <= y.len(),
                        b == field_views(y@),
                        self@ == JsonView::Object(a),
                        other@ == JsonView::Object(b),
                        a.len() == x.len(),
                        forall|k: int|
                            0 <= k < a.len() && #[trigger] counts(a, k) ==> match member(
                                b,
                                a[k].name,
                            ) {
                                Some(v) => equal_documents(a[k].value, v),
                                None => false,
                            },
                        forall|k: int| 0 <= k < j ==> member(a, (#[trigger] b[k]).name) is Some,
                    decreases y.len() - j,
                {
                    assert(b[j as int].name == y@[j as int].0@);
                    if self.get(y[j].0.as_str()).is_none() {
                        assert(member(a, b[j as int].name) is None);
                        return false;
                    }
                    j += 1;
                }
                true
            },
            _ => false,
        }
    }
}

impl PartialEq for Json {
    fn eq(&self, other: &Json) -> (r: bool) {
        self.equals(other)
    }
}

impl PartialEqSpecImpl for Json {
    open spec fn obeys_eq_spec() -> bool {
        true
    }

    open spec fn eq_spec(&self, other: &Json) -> bool {
        equal_documents(self@, other@)
    }
}

/// A copy of an optional document.
pub fn copy_json(j: &Option<Json>) -> (r: Option<Json>)
    ensures
        json_option(r) == json_option(*j),
{
    match j {
        Some(v) => Some(v.clone()),
        None => None,
    }
}

impl Json {
    /// The empty object.
    pub fn object() -> (r: Json)
        ensures
            r@ == empty_object(),
    {
        let r = Json::Object(Vec::new());
        assert(r@->Object_0 =~= Seq::empty());
        r
    }

    /// An object of one member.
    pub fn single(key: &str, value: Json) -> (r: Json)
        ensures
            r@ == JsonView::Object(seq![MemberView { name: key@, value: value@ }]),
    {
        let mut fields: Vec<(String, Json)> = Vec::new();
        fields.push((key.to_owned(), value));
        let r = Json::Object(fields);
        assert(r@->Object_0 =~= seq![MemberView { name: key@, value: value@ }]);
        r
    }

    /// The member of an object, where there is one of that name.
    pub fn get(&self, key: &str) -> (r: Option<&Json>)
        ensures
            match r {
                Some(v) => self@.get(key@) == Some(v@),
                None => self@.get(key@) is None,
            },
    {
        match self {
            Json::Object(fields) => {
                let ghost view = self@->Object_0;
                let mut i: usize = fields.len();
                proof {
                    assert(view.take(i as int) =~= view);
                }
                while i > 0
                    invariant
                        i <= fields.len(),
                        *self == Json::Object(*fields),
                        view == self@->Object_0,
                        view.len() == fields.len(),
                        forall|j: int|
                            0 <= j < fields.len() ==> #[trigger] view[j] == (MemberView {
                                name: fields@[j].0@,
                                value: fields@[j].1@,
                            }),
                        member(view, key@) == member(view.take(i as int), key@),
                    decreases i,
                {
                    let at: usize = i - 1;
                    proof {
                        assert(view.take(i as int).last() == view[at as int]);
                        assert(view.take(i as int).drop_last() =~= view.take(at as int));
                    }
                    if same(fields[at].0.as_str(), key) {
                        return Some(&fields[at].1);
                    }
                    i = at;
                }
                None
            },
            _ => None,
        }
    }

    /// The text of a string.
    pub fn text(&self) -> (r: Option<&String>)
        ensures
            match r {
                Some(s) => self@.text() == Some(s@),
                None => self@.text() is None,
            },
    {
        match self {
            Json::Text(s) => Some(s),
            _ => None,
        }
    }

    /// A copy of the text of the member of that name, where it is a string.
    pub fn get_text(&self, key: &str) -> (r: Option<String>)
        ensures
            crate::text::option_view(r) == self@.get_text(key@),
    {
        match self.get(key) {
            Some(v) => match v.text() {
                Some(s) => Some(s.clone()),
                None => None,
            },
            None => None,
        }
    }
}

/// The tree that a `serde_json::Value` holds.
pub uninterp spec fn json_tree(value: serde_json::Value) -> JsonView;

/// The `serde_json::Value` that holds a tree.
pub uninterp spec fn json_value(tree: JsonView) -> serde_json::Value;

/// What `serde_json::from_str` makes of a text.
pub uninterp spec fn json_from_text(text: Seq<char>) -> Result<
    serde_json::Value,
    JsonError,
>;

/// What `serde_json::from_slice` makes of bytes.
pub uninterp spec fn json_from_bytes(bytes: Seq<u8>) -> Result<
    serde_json::Value,
    JsonError,
>;

/// The text in which `Display` of `serde_json::Value` writes a value.
pub uninterp spec fn json_to_text(value: serde_json::Value) -> Seq<char>;

/// `serde_json::from_str`: the same text is always read as the same value, or
/// refused with the same error.
#[verifier::external_body]
fn value_from_text(text: &str) -> (r: Result<serde_json::Value, JsonError>)
    ensures
        r == json_from_text(text@),
{
    serde_json::from_str::<serde_json::Value>(text)
}

/// `serde_json::from_slice`: the same bytes are always read as the same value,
/// or refused with the same error.
#[verifier::external_body]
fn value_from_bytes(bytes: &[u8]) -> (r: Result<serde_json::Value, JsonError>)
    ensures
        r == json_from_bytes(bytes@),
{
    serde_json::from_slice::<serde_json::Value>(bytes)
}

/// `Display` of `serde_json::Value`: the compact text of the value.
#[verifier::external_body]
fn value_to_text(value: &serde_json::Value) -> (r: String)
    ensures
        r@ == json_to_text(*value),
{
    value.to_string()
}

/// Takes a `serde_json::Value` apart, variant by variant.
#[verifier::external_body]
fn tree_of(value: serde_json::Value) -> (r: Json)
    ensures
        r@ == json_tree(value),
{
    match value {
        serde_json::Value::Null => Json::Null,
        serde_json::Value::Bool(b) => Json::Bool(b),
        serde_json::Value::Number(n) => Json::Number(n),
        serde_json::Value::String(s) => Json::Text(s),
        serde_json::Value::Array(items) => Json::Array(items.into_iter().map(tree_of).collect()),
        serde_json::Value::Object(fields) => {
            Json::Object(fields.into_iter().map(|(k, v)| (k, tree_of(v))).collect())
        },
    }
}

/// Puts a `serde_json::Value` together, variant by variant; of two members
/// of one name its map keeps the later.
#[verifier::external_body]
fn value_of(tree: Json) -> (r: serde_json::Value)
    ensures
        r == json_value(tree@),
{
    match tree {
        Json::Null => serde_json::Value::Null,
        Json::Bool(b) => serde_json::Value::Bool(b),
        Json::Number(n) => serde_json::Value::Number(n),
        Json::Text(s) => serde_json::Value::String(s),
        Json::Array(items) => serde_json::Value::Array(items.into_iter().map(value_of).collect()),
        Json::Object(fields) => {
            serde_json::Value::Object(fields.into_iter().map(|(k, v)| (k, value_of(v))).collect())
        },
    }
}

/// The document that a text is read as, if it is one.
pub open spec fn parsed_text(text: Seq<char>) -> Option<JsonView> {
    match json_from_text(text) {
        Ok(v) => Some(json_tree(v)),
        Err(_) => None,
    }
}

/// The document that bytes are read as, if they are one.
pub open spec fn parsed_bytes(bytes: Seq<u8>) -> Option<JsonView> {
    match json_from_bytes(bytes) {
        Ok(v) => Some(json_tree(v)),
        Err(_) => None,
    }
}

/// Reads a document from text.
pub fn parse_text(text: &str) -> (r: Option<Json>)
    ensures
        json_option(r) == parsed_text(text@),
{
    match value_from_text(text) {
        Ok(v) => Some(tree_of(v)),
        Err(_) => None,
    }
}

/// Reads a document from bytes.
pub fn parse_bytes(bytes: &[u8]) -> (r: Option<Json>)
    ensures
        json_option(r) == parsed_bytes(bytes@),
{
    match value_from_bytes(bytes) {
        Ok(v) => Some(tree_of(v)),
        Err(_) => None,
    }
}

/// Writes a document as compact text.
pub fn to_text(tree: Json) -> (r: String)
    ensures
        r@ == json_to_text(json_value(tree@)),
{
    value_to_text(&value_of(tree))
}

} // verus!
