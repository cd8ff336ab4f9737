//! JSON values as plain data: what the message types hold where the wire format is open.

use crate::text;
use vstd::prelude::*;

verus! {

/// A JSON number: an integer that is not negative, one that is, or a number that is not
/// written as an integer, by the digits with which it is written.
#[derive(Debug, Clone, PartialEq, Eq)]
pub enum JsonNumber {
    Unsigned(u64),
    Negative(i64),
    Float { digits: String },
}

/// A JSON value. The members of an object stand in some order. Of a value that `serde_json`
/// handed over it is the order in which `serde_json` holds them, of a value that is written
/// here it is the one that the writing function states.
#[derive(Debug, PartialEq, Eq)]
pub enum Json {
    Null,
    Bool(bool),
    Number(JsonNumber),
    String(String),
    Array(Vec<Json>),
    Object(Vec<(String, Json)>),
}

/// A JSON number as a mathematical one.
pub enum NumberView {
    Unsigned(u64),
    Negative(i64),
    Float { digits: Seq<char> },
}

impl View for JsonNumber {
    type V = NumberView;

    open spec fn view(&self) -> NumberView {
        match *self {
            JsonNumber::Unsigned(n) => NumberView::Unsigned(n),
            JsonNumber::Negative(n) => NumberView::Negative(n),
            JsonNumber::Float { digits } => NumberView::Float { digits: digits@ },
        }
    }
}

impl JsonNumber {
    /// The same number once more.
    fn copy(&self) -> (number: JsonNumber)
        ensures
            number@ == self@,
    {
        match self {
            JsonNumber::Unsigned(n) => JsonNumber::Unsigned(*n),
            JsonNumber::Negative(n) => JsonNumber::Negative(*n),
            JsonNumber::Float { digits } => JsonNumber::Float { digits: digits.clone() },
        }
    }
}

/// A JSON value as a mathematical one.
pub enum JsonTree {
    Null,
    Bool(bool),
    Number(NumberView),
    String(Seq<char>),
    Array(Seq<JsonTree>),
    Object(Seq<(Seq<char>, JsonTree)>),
}

impl Json {
    /// The value that this is.
    pub open spec fn tree(self) -> JsonTree
        decreases self,
    {
        match self {
            Json::Null => JsonTree::Null,
            Json::Bool(b) => JsonTree::Bool(b),
            Json::Number(n) => JsonTree::Number(n@),
            Json::String(s) => JsonTree::String(s@),
            Json::Array(items) => JsonTree::Array(
                Seq::new(
                    items@.len(),
                    |i: int|
                        if 0 <= i < items@.len() {
                            items@[i].tree()
                        } else {
                            JsonTree::Null
                        },
                ),
            ),
            Json::Object(members) => JsonTree::Object(
                Seq::new(
                    members@.len(),
                    |i: int|
                        if 0 <= i < members@.len() {
                            (members@[i].0@, members@[i].1.tree())
                        } else {
                            (Seq::empty(), JsonTree::Null)
                        },
                ),
            ),
        }
    }
}

impl View for Json {
    type V = JsonTree;

    open spec fn view(&self) -> JsonTree {
        self.tree()
    }
}

impl Json {
    /// The same value once more.
    fn copy(&self) -> (json: Json)
        ensures
            json@ == self@,
        decreases self,
    {
        match self {
            Json::Null => Json::Null,
            Json::Bool(b) => Json::Bool(*b),
            Json::Number(n) => Json::Number(n.copy()),
            Json::String(s) => Json::String(s.clone()),
            Json::Array(items) => {
                let mut copies: Vec<Json> = Vec::new();
                let mut i: usize = 0;
                while i < items.len()
                    invariant
                        i <= items@.len(),
                        copies@.len() == i,
                        forall|j: int| 0 <= j < i ==> #[trigger] copies@[j]@ == items@[j]@,
                        *self == Json::Array(*items),
                    decreases items@.len() - i,
                {
                    proof {
                        assert(decreases_to!(*self => self->Array_0));
                        assert(decreases_to!(self->Array_0 => self->Array_0@));
                        assert(decreases_to!(self->Array_0@ => self->Array_0@[i as int]));
                    }
                    copies.push(items[i].copy());
                    i = i + 1;
                }
                let json = Json::Array(copies);
                assert forall|j: int| 0 <= j < items@.len() implies #[trigger] json@->Array_0[j]
                    == self@->Array_0[j] by {
                    assert(copies@[j]@ == items@[j]@);
                }
                assert(json@->Array_0 =~= self@->Array_0);
                json
            },
            Json::Object(members) => {
                let mut copies: Vec<(String, Json)> = Vec::new();
                let mut i: usize = 0;
                while i < members.len()
                    invariant
                        i <= members@.len(),
                        copies@.len() == i,
                        forall|j: int|
                            0 <= j < i ==> {
                                &&& (#[trigger] copies@[j]).0@ == members@[j].0@
                                &&& copies@[j].1@ == members@[j].1@
                            },
                        *self == Json::Object(*members),
                    decreases members@.len() - i,
                {
                    proof {
                        assert(decreases_to!(*self => self->Object_0));
                        assert(decreases_to!(self->Object_0 => self->Object_0@));
                        assert(decreases_to!(self->Object_0@ => self->Object_0@[i as int]));
                        assert(decreases_to!(self->Object_0@[i as int] => self->Object_0@[i as int].1));
                    }
                    copies.push((members[i].0.clone(), members[i].1.copy()));
                    i = i + 1;
                }
                let json = Json::Object(copies);
                assert(json@->Object_0 =~= self@->Object_0);
                json
            },
        }
    }
}

impl Json {
    /// The same values once more.
    pub fn copies(items: &Vec<Json>) -> (copies: Vec<Json>)
        ensures
            trees(copies@) == trees(items@),
    {
        let mut copies: Vec<Json> = Vec::new();
        let mut i: usize = 0;
        while i < items.len()
            invariant
                i <= items@.len(),
                copies@.len() == i,
                forall|j: int| 0 <= j < i ==> #[trigger] copies@[j]@ == items@[j]@,
            decreases items@.len() - i,
        {
            copies.push(items[i].copy());
            i = i + 1;
        }
        assert(trees(copies@) =~= trees(items@));
        copies
    }
}

impl Clone for Json {
    fn clone(&self) -> (json: Json)
        ensures
            json@ == self@,
    {
        self.copy()
    }
}

/// The value of the first member with that key.
pub open spec fn member_of(members: Seq<(Seq<char>, JsonTree)>, key: Seq<char>) -> Option<JsonTree>
    decreases members.len(),
{
    if members.len() == 0 {
        None
    } else if members[0].0 == key {
        Some(members[0].1)
    } else {
        member_of(members.skip(1), key)
    }
}

impl JsonTree {
    /// The member `key`, if this is an object that has it.
    pub open spec fn get(self, key: Seq<char>) -> Option<JsonTree> {
        match self {
            JsonTree::Object(members) => member_of(members, key),
            _ => None,
        }
    }

    /// The characters, if this is a string.
    pub open spec fn as_str(self) -> Option<Seq<char>> {
        match self {
            JsonTree::String(s) => Some(s),
            _ => None,
        }
    }
}

impl Json {
    /// The member `key`, if this is an object that has it.
    pub fn get(&self, key: &str) -> (value: Option<&Json>)
        ensures
            match value {
                Some(v) => self@.get(key@) == Some(v@),
                None => self@.get(key@) is None,
            },
    {
        match self {
            Json::Object(members) => {
                let wanted = key.to_owned();
                let ghost all = self@->Object_0;
                let mut i: usize = 0;
                assert(all.skip(0) =~= all);
                while i < members.len()
                    invariant
                        i <= members@.len(),
                        *self == Json::Object(*members),
                        all == self@->Object_0,
                        wanted@ == key@,
                        self@.get(key@) == member_of(all.skip(i as int), key@),
                    decreases members@.len() - i,
                {
                    assert(all.skip(i as int)[0] == (members@[i as int].0@, members@[i as int].1@));
                    assert(all.skip(i as int).skip(1) =~= all.skip(i + 1));
                    if members[i].0 == wanted {
                        return Some(&members[i].1);
                    }
                    i = i + 1;
                }
                None
            },
            _ => None,
        }
    }

    /// The string, if this is one.
    pub fn as_str(&self) -> (s: Option<&str>)
        ensures
            match s {
                Some(s) => self@.as_str() == Some(s@),
                None => self@.as_str() is None,
            },
    {
        match self {
            Json::String(s) => Some(s.as_str()),
            _ => None,
        }
    }
}

/// The items, each by the value that it is.
pub open spec fn trees(items: Seq<Json>) -> Seq<JsonTree> {
    Seq::new(items.len(), |i: int| items[i]@)
}

/// The members, each by its key and by the value that it has.
pub open spec fn member_trees(members: Seq<(String, Json)>) -> Seq<(Seq<char>, JsonTree)> {
    Seq::new(members.len(), |i: int| (members[i].0@, members[i].1@))
}

/// A value that may be left out.
pub open spec fn optional_tree(value: Option<Json>) -> Option<JsonTree> {
    match value {
        Some(v) => Some(v@),
        None => None,
    }
}

/// An array is the sequence of its items.
pub proof fn lemma_array_tree(items: Vec<Json>)
    ensures
        Json::Array(items)@ == JsonTree::Array(trees(items@)),
{
    assert(Json::Array(items)@->Array_0 =~= trees(items@));
}

impl Json {
    /// An array of these items.
    pub fn array(items: Vec<Json>) -> (json: Json)
        ensures
            json == Json::Array(items),
            json@ == JsonTree::Array(trees(items@)),
    {
        proof {
            lemma_array_tree(items);
        }
        Json::Array(items)
    }

    /// An object with these members.
    pub fn object(members: Vec<(String, Json)>) -> (json: Json)
        ensures
            json == Json::Object(members),
            json@ == JsonTree::Object(member_trees(members@)),
    {
        let json = Json::Object(members);
        assert(json@->Object_0 =~= member_trees(members@));
        json
    }
}

/// Where a record keeps a field: an object under its name, an array at its place.
pub open spec fn slot(raw: JsonTree, name: Seq<char>, place: int) -> Option<JsonTree> {
    match raw {
        JsonTree::Array(items) => if 0 <= place < items.len() {
            Some(items[place])
        } else {
            None
        },
        _ => raw.get(name),
    }
}

/// A field that is a string.
pub open spec fn text_slot(raw: JsonTree, name: Seq<char>, place: int) -> Option<Seq<char>> {
    match slot(raw, name, place) {
        Some(value) => value.as_str(),
        None => None,
    }
}

/// Where a record keeps a field.
pub(crate) fn slot_of<'a>(raw: &'a Json, name: &str, place: usize) -> (value: Option<&'a Json>)
    ensures
        match value {
            Some(v) => slot(raw@, name@, place as int) == Some(v@),
            None => slot(raw@, name@, place as int) is None,
        },
{
    match raw {
        Json::Array(items) => if place < items.len() {
            Some(&items[place])
        } else {
            None
        },
        _ => raw.get(name),
    }
}

/// A field that is a string.
pub(crate) fn text_slot_of(raw: &Json, name: &str, place: usize) -> (text: Option<String>)
    ensures
        text::optional_text(text) == text_slot(raw@, name@, place as int),
{
    match slot_of(raw, name, place) {
        Some(Json::String(text)) => Some(text.clone()),
        _ => None,
    }
}

/// A record that names its type first, and then has that many fields, has nothing behind
/// them. Only an array can have more: what an object has besides is passed over.
pub open spec fn no_rest(raw: JsonTree, fields: int) -> bool {
    raw matches JsonTree::Array(items) ==> items.len() <= fields + 1
}

/// The type, among those in `names`: by its name or by its place among them.
pub open spec fn tag(raw: JsonTree, names: Seq<Seq<char>>) -> Option<Seq<char>> {
    match slot(raw, "type"@, 0) {
        Some(JsonTree::String(name)) => if names.contains(name) {
            Some(name)
        } else {
            None
        },
        Some(JsonTree::Number(NumberView::Unsigned(n))) => if n < names.len() {
            Some(names[n as int])
        } else {
            None
        },
        _ => None,
    }
}

/// Nothing stands behind the type and that many fields.
pub(crate) fn has_no_rest(raw: &Json, fields: usize) -> (fits: bool)
    requires
        fields <= 3,
    ensures
        fits == no_rest(raw@, fields as int),
{
    match raw {
        Json::Array(items) => items.len() <= fields + 1,
        _ => true,
    }
}

/// The type, among those in `names`: its place among them.
pub(crate) fn tag_of(raw: &Json, names: &Vec<String>) -> (place: Option<usize>)
    ensures
        match place {
            Some(i) => i < names@.len() && tag(raw@, name_views(names@)) == Some(names@[i as int]@),
            None => tag(raw@, name_views(names@)) is None,
        },
{
    match slot_of(raw, "type", 0) {
        Some(Json::String(name)) => {
            let mut i: usize = 0;
            while i < names.len()
                invariant
                    i <= names@.len(),
                    slot(raw@, "type"@, 0) == Some(JsonTree::String(name@)),
                    forall|j: int| 0 <= j < i ==> (#[trigger] names@[j])@ != name@,
                decreases names@.len() - i,
            {
                if names[i] == *name {
                    proof {
                        assert(name_views(names@)[i as int] == name@);
                    }
                    return Some(i);
                }
                i = i + 1;
            }
            None
        },
        Some(Json::Number(JsonNumber::Unsigned(n))) => if *n < names.len() as u64 {
            Some(*n as usize)
        } else {
            None
        },
        _ => None,
    }
}

/// The type, among those in `names`, by its name alone.
pub open spec fn named_tag(raw: JsonTree, names: Seq<Seq<char>>) -> Option<Seq<char>> {
    match slot(raw, "type"@, 0) {
        Some(JsonTree::String(_)) => tag(raw, names),
        _ => None,
    }
}

/// The names, each by its characters.
pub open spec fn name_views(names: Seq<String>) -> Seq<Seq<char>> {
    Seq::new(names.len(), |i: int| names[i]@)
}

/// `serde_json::Value`, carried as it is.
#[verifier::external_type_specification]
#[verifier::external_body]
pub struct ExValue(serde_json::Value);

/// What a `serde_json::Value` holds: the arrays and objects in it, down to the plain
/// values.
pub uninterp spec fn contents(value: serde_json::Value) -> JsonTree;

/// The outermost layer of a `serde_json::Value`: what stands below it is still a `Value`.
pub enum Layer {
    Null,
    Bool(bool),
    Number(JsonNumber),
    String(String),
    Array(Vec<serde_json::Value>),
    Object(Vec<(String, serde_json::Value)>),
}

/// The items, each by what it holds.
pub open spec fn items_contents(items: Seq<serde_json::Value>) -> Seq<JsonTree> {
    Seq::new(items.len(), |i: int| contents(items[i]))
}

/// The members, each by its key and by what its value holds.
pub open spec fn members_contents(members: Seq<(String, serde_json::Value)>) -> Seq<
    (Seq<char>, JsonTree),
> {
    Seq::new(members.len(), |i: int| (members[i].0@, contents(members[i].1)))
}

impl Layer {
    /// What a value with this outermost layer holds.
    pub open spec fn holds(self) -> JsonTree {
        match self {
            Layer::Null => JsonTree::Null,
            Layer::Bool(b) => JsonTree::Bool(b),
            Layer::Number(n) => JsonTree::Number(n@),
            Layer::String(s) => JsonTree::String(s@),
            Layer::Array(items) => JsonTree::Array(items_contents(items@)),
            Layer::Object(members) => JsonTree::Object(members_contents(members@)),
        }
    }
}

/// `serde_json::Value`, told apart by its variant, with the field of the variant moved
/// out: a `Map` as its members, in the order in which `Map::into_iter` hands them out, a
/// `Number` as the integer for which `as_u64` or `as_i64` answers, or else by the digits that
/// its `Display` writes. Claimed is that a value holds what its variant and the values in it
/// hold. Which variant a given value is, and how its number reads, no clause says.
#[verifier::external_body]
fn unwrap_layer(value: serde_json::Value) -> (layer: Layer)
    ensures
        contents(value) == layer.holds(),
{
    match value {
        serde_json::Value::Null => Layer::Null,
        serde_json::Value::Bool(b) => Layer::Bool(b),
        serde_json::Value::Number(n) => Layer::Number(match (n.as_u64(), n.as_i64()) {
            (Some(u), _) => JsonNumber::Unsigned(u),
            (None, Some(i)) => JsonNumber::Negative(i),
            (None, None) => JsonNumber::Float { digits: n.to_string() },
        }),
        serde_json::Value::String(s) => Layer::String(s),
        serde_json::Value::Array(items) => Layer::Array(items),
        serde_json::Value::Object(members) => Layer::Object(members.into_iter().collect()),
    }
}

impl Json {
    /// The value that `serde_json` parsed, as plain data: item by item, member by member.
    pub fn from_value(value: serde_json::Value) -> (json: Json)
        ensures
            json@ == contents(value),
        decreases contents(value),
    {
        let layer = unwrap_layer(value);
        match layer {
            Layer::Null => Json::Null,
            Layer::Bool(b) => Json::Bool(b),
            Layer::Number(n) => Json::Number(n),
            Layer::String(s) => Json::String(s),
            Layer::Array(items) => {
                let ghost all = items@;
                let ghost whole = contents(value);
                let mut converted: Vec<Json> = Vec::new();
                for item in it: items
                    invariant
                        it.seq() == all,
                        whole == contents(value),
                        whole == JsonTree::Array(items_contents(all)),
                        converted@.len() == it.index(),
                        forall|j: int|
                            0 <= j < it.index() ==> #[trigger] converted@[j]@ == contents(all[j]),
                {
                    proof {
                        let k: int = it.index();
                        assert(decreases_to!(whole => whole->Array_0));
                        assert(decreases_to!(whole->Array_0 => whole->Array_0[k]));
                    }
                    converted.push(Json::from_value(item));
                }
                let json = Json::Array(converted);
                assert forall|j: int| 0 <= j < all.len() implies #[trigger] json@->Array_0[j]
                    == whole->Array_0[j] by {
                    assert(converted@[j]@ == contents(all[j]));
                }
                assert(json@->Array_0 =~= whole->Array_0);
                json
            },
            Layer::Object(members) => {
                let ghost all = members@;
                let ghost whole = contents(value);
                let mut converted: Vec<(String, Json)> = Vec::new();
                for member in it: members
                    invariant
                        it.seq() == all,
                        whole == contents(value),
                        whole == JsonTree::Object(members_contents(all)),
                        converted@.len() == it.index(),
                        forall|j: int|
                            0 <= j < it.index() ==> {
                                &&& (#[trigger] converted@[j]).0@ == all[j].0@
                                &&& converted@[j].1@ == contents(all[j].1)
                            },
                {
                    proof {
                        let k: int = it.index();
                        assert(decreases_to!(whole => whole->Object_0));
                        assert(decreases_to!(whole->Object_0 => whole->Object_0[k]));
                        assert(decreases_to!(whole->Object_0[k] => whole->Object_0[k].1));
                    }
                    let (key, inner) = member;
                    converted.push((key, Json::from_value(inner)));
                }
                let json = Json::Object(converted);
                assert(json@->Object_0 =~= whole->Object_0);
                json
            },
        }
    }
}

/// The first member with a key is the one that is found under it.
pub proof fn law_first_member_is_found(members: Seq<(Seq<char>, JsonTree)>, i: int)
    requires
        0 <= i < members.len(),
        forall|j: int| 0 <= j < i ==> (#[trigger] members[j]).0 != members[i].0,
    ensures
        JsonTree::Object(members).get(members[i].0) == Some(members[i].1),
    decreases i,
{
    if i > 0 {
        assert(members[0].0 != members[i].0);
        assert(members.skip(1)[i - 1] == members[i]);
        assert forall|j: int| 0 <= j < i - 1 implies (#[trigger] members.skip(1)[j]).0
            != members[i].0 by {
            assert(members.skip(1)[j] == members[j + 1]);
        }
        law_first_member_is_found(members.skip(1), i - 1);
    }
}

/// Under a key that no member has, nothing is found.
pub proof fn law_missing_member_is_not_found(members: Seq<(Seq<char>, JsonTree)>, key: Seq<char>)
    requires
        forall|j: int| 0 <= j < members.len() ==> (#[trigger] members[j]).0 != key,
    ensures
        JsonTree::Object(members).get(key) is None,
    decreases members.len(),
{
    if members.len() > 0 {
        assert(members[0].0 != key);
        assert forall|j: int| 0 <= j < members.skip(1).len() implies (#[trigger] members.skip(
            1,
        )[j]).0 != key by {
            assert(members.skip(1)[j] == members[j + 1]);
        }
        law_missing_member_is_not_found(members.skip(1), key);
    }
}

/// Only objects have members.
pub proof fn law_only_objects_have_members(raw: JsonTree, key: Seq<char>)
    requires
        raw !is Object,
    ensures
        raw.get(key) is None,
{
}

/// A value is made of its parts: characters, items in their places, members under their keys.
pub proof fn law_value_is_made_of_its_parts(json: Json)
    ensures
        match json {
            Json::Null => json@ == JsonTree::Null,
            Json::Bool(b) => json@ == JsonTree::Bool(b),
            Json::Number(JsonNumber::Unsigned(n)) => json@ == JsonTree::Number(
                NumberView::Unsigned(n),
            ),
            Json::Number(JsonNumber::Negative(n)) => json@ == JsonTree::Number(
                NumberView::Negative(n),
            ),
            Json::Number(JsonNumber::Float { digits }) => json@ == JsonTree::Number(
                NumberView::Float { digits: digits@ },
            ),
            Json::String(s) => json@ == JsonTree::String(s@),
            Json::Array(items) => json@ matches JsonTree::Array(parts) && {
                &&& parts.len() == items@.len()
                &&& forall|i: int| 0 <= i < parts.len() ==> #[trigger] parts[i] == items@[i]@
            },
            Json::Object(members) => json@ matches JsonTree::Object(parts) && {
                &&& parts.len() == members@.len()
                &&& forall|i: int|
                    0 <= i < parts.len() ==> (#[trigger] parts[i]).0 == members@[i].0@
                        && parts[i].1 == members@[i].1@
            },
        },
{
}

/// A list of values is the list of what each of them is.
pub proof fn law_list_is_made_of_its_items(items: Seq<Json>, members: Seq<(String, Json)>)
    ensures
        trees(items).len() == items.len(),
        forall|i: int| 0 <= i < items.len() ==> #[trigger] trees(items)[i] == items[i]@,
        member_trees(members).len() == members.len(),
        forall|i: int|
            0 <= i < members.len() ==> (#[trigger] member_trees(members)[i]).0 == members[i].0@
                && member_trees(members)[i].1 == members[i].1@,
{
}

/// What a value of `serde_json` holds is what its outermost layer says, down to the values
/// inside it, each in its place.
pub proof fn law_layer_is_made_of_its_parts(layer: Layer)
    ensures
        match layer {
            Layer::Null => layer.holds() == JsonTree::Null,
            Layer::Bool(b) => layer.holds() == JsonTree::Bool(b),
            Layer::Number(n) => layer.holds() == Json::Number(n)@,
            Layer::String(s) => layer.holds() == JsonTree::String(s@),
            Layer::Array(items) => layer.holds() matches JsonTree::Array(parts) && {
                &&& parts.len() == items@.len()
                &&& forall|i: int|
                    0 <= i < parts.len() ==> #[trigger] parts[i] == contents(items@[i])
            },
            Layer::Object(members) => layer.holds() matches JsonTree::Object(parts) && {
                &&& parts.len() == members@.len()
                &&& forall|i: int|
                    0 <= i < parts.len() ==> (#[trigger] parts[i]).0 == members@[i].0@
                        && parts[i].1 == contents(members@[i].1)
            },
        },
{
}

/// A record keeps a field under its name if it is an object, at its place if it is an array,
/// and nowhere if it is neither.
pub proof fn law_field_by_name_or_place(raw: JsonTree, name: Seq<char>, place: int)
    ensures
        match raw {
            JsonTree::Object(_) => slot(raw, name, place) == raw.get(name),
            JsonTree::Array(items) => slot(raw, name, place) == (if 0 <= place < items.len() {
                Some(items[place])
            } else {
                None
            }),
            _ => slot(raw, name, place) is None,
        },
        text_slot(raw, name, place) == (match slot(raw, name, place) {
            Some(JsonTree::String(text)) => Some(text),
            _ => None,
        }),
{
}

/// The record is of the type with this name and this place among the types.
pub open spec fn is_of_type(raw: JsonTree, name: Seq<char>, place: u64) -> bool {
    ||| slot(raw, "type"@, 0) == Some(JsonTree::String(name))
    ||| slot(raw, "type"@, 0) == Some(JsonTree::Number(NumberView::Unsigned(place)))
}

/// The field that the record has there is a string.
pub open spec fn has_text(raw: JsonTree, name: Seq<char>, place: int) -> bool {
    slot(raw, name, place) is Some && slot(raw, name, place)->Some_0 is String
}

/// The record, if it is an array, has no more than a type and that many fields.
pub open spec fn has_at_most(raw: JsonTree, fields: int) -> bool {
    raw is Array ==> raw->Array_0.len() <= fields + 1
}

/// Only a string has characters.
pub proof fn law_only_strings_have_characters(raw: JsonTree)
    ensures
        match raw {
            JsonTree::String(s) => raw.as_str() == Some(s),
            _ => raw.as_str() is None,
        },
{
}

} // verus!
