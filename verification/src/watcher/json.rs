//! JSON documents as plain values: the tree that the record decoder reads,
//! its mathematical model, and the steps that obtain it from text. Two of
//! those steps are trusted: the call of `serde_json` that reads the text,
//! and the one that takes the outermost level of its result apart.

use crate::text::str_eq;
use vstd::prelude::*;

verus! {

/// A JSON value.
#[derive(Debug, PartialEq, Eq)]
pub enum Json {
    Null,
    Bool(bool),
    /// A number. `Some` where it is an unsigned integer of at most 64 bits;
    /// the value of any other number is not kept.
    Number(Option<u64>),
    Text(String),
    List(Vec<Json>),
    /// The members of an object, each with its name.
    Object(Vec<(String, Json)>),
}

/// The mathematical value of a [`Json`].
pub enum JsonTree {
    Null,
    Bool(bool),
    Number(Option<u64>),
    Text(Seq<char>),
    List(Seq<JsonTree>),
    Object(Seq<(Seq<char>, JsonTree)>),
}

/// The value of the first member named `key`.
pub open spec fn first_member(members: Seq<(Seq<char>, JsonTree)>, key: Seq<char>) -> Option<
    JsonTree,
>
    decreases members.len(),
{
    if members.len() == 0 {
        None
    } else if members[0].0 == key {
        Some(members[0].1)
    } else {
        first_member(members.drop_first(), key)
    }
}

impl JsonTree {
    /// The member `key` of an object; `None` for a missing member and for
    /// anything that is not an object.
    pub open spec fn member(self, key: Seq<char>) -> Option<JsonTree> {
        match self {
            JsonTree::Object(members) => first_member(members, key),
            _ => None,
        }
    }

    /// The characters of a string value.
    pub open spec fn text(self) -> Option<Seq<char>> {
        match self {
            JsonTree::Text(s) => Some(s),
            _ => None,
        }
    }

    /// The number, where the value is an unsigned integer of at most 64
    /// bits.
    pub open spec fn unsigned(self) -> Option<u64> {
        match self {
            JsonTree::Number(n) => n,
            _ => None,
        }
    }

    /// The string held by member `key`, if it is there and is a string.
    pub open spec fn text_member(self, key: Seq<char>) -> Option<Seq<char>> {
        match self.member(key) {
            Some(value) => value.text(),
            None => None,
        }
    }
}

/// The models of the first `n` of `items`.
pub open spec fn list_trees(items: Vec<Json>, n: nat) -> Seq<JsonTree>
    decreases items, n,
{
    if n == 0 || n > items.len() {
        Seq::empty()
    } else {
        list_trees(items, (n - 1) as nat).push(items[n - 1]@)
    }
}

/// The models of the first `n` of `members`, each with its name.
pub open spec fn member_trees(members: Vec<(String, Json)>, n: nat) -> Seq<(Seq<char>, JsonTree)>
    decreases members, n,
{
    if n == 0 || n > members.len() {
        Seq::empty()
    } else {
        member_trees(members, (n - 1) as nat).push((members[n - 1].0@, members[n - 1].1@))
    }
}

impl View for Json {
    type V = JsonTree;

    open spec fn view(&self) -> JsonTree
        decreases self, 0nat,
    {
        match self {
            Json::Null => JsonTree::Null,
            Json::Bool(b) => JsonTree::Bool(*b),
            Json::Number(n) => JsonTree::Number(*n),
            Json::Text(s) => JsonTree::Text(s@),
            Json::List(items) => JsonTree::List(list_trees(*items, items.len() as nat)),
            Json::Object(members) => JsonTree::Object(
                member_trees(*members, members.len() as nat),
            ),
        }
    }
}

/// The model of a list holds the model of each item, in order.
pub proof fn lemma_list_trees(items: Vec<Json>, n: nat)
    requires
        n <= items.len(),
    ensures
        list_trees(items, n).len() == n,
        forall|k: int| 0 <= k < n ==> #[trigger] list_trees(items, n)[k] == items[k]@,
    decreases n,
{
    if n > 0 {
        lemma_list_trees(items, (n - 1) as nat);
        assert(list_trees(items, n) == list_trees(items, (n - 1) as nat).push(items[n - 1]@));
    } else {
        assert(list_trees(items, n) == Seq::<JsonTree>::empty());
    }
}

/// The model of an object holds the name and the model of each member, in
/// order.
pub proof fn lemma_member_trees(members: Vec<(String, Json)>, n: nat)
    requires
        n <= members.len(),
    ensures
        member_trees(members, n).len() == n,
        forall|k: int|
            0 <= k < n ==> #[trigger] member_trees(members, n)[k] == (
                members[k].0@,
                members[k].1@,
            ),
    decreases n,
{
    if n > 0 {
        lemma_member_trees(members, (n - 1) as nat);
        assert(member_trees(members, n) == member_trees(members, (n - 1) as nat).push(
            (members[n - 1].0@, members[n - 1].1@),
        ));
    } else {
        assert(member_trees(members, n) == Seq::<(Seq<char>, JsonTree)>::empty());
    }
}

/// The names and models of `members`, in order.
pub open spec fn members_view(members: Seq<(String, Json)>) -> Seq<(Seq<char>, JsonTree)> {
    Seq::new(members.len(), |i: int| (members[i].0@, members[i].1@))
}

/// The model of a list is the sequence of its items' models.
pub proof fn lemma_list_view(items: Vec<Json>)
    ensures
        Json::List(items)@ == JsonTree::List(items.deep_view()),
{
    lemma_list_trees(items, items.len() as nat);
    assert(list_trees(items, items.len() as nat) =~= items.deep_view());
}

/// The model of an object is the sequence of its members' names and models.
pub proof fn lemma_object_view(members: Vec<(String, Json)>)
    ensures
        Json::Object(members)@ == JsonTree::Object(members_view(members@)),
{
    lemma_member_trees(members, members.len() as nat);
    assert(member_trees(members, members.len() as nat) =~= members_view(members@));
}

impl DeepView for Json {
    type V = JsonTree;

    open spec fn deep_view(&self) -> JsonTree {
        self@
    }
}

/// The model of an optional value.
pub open spec fn tree_of(json: Option<Json>) -> Option<JsonTree> {
    match json {
        Some(j) => Some(j@),
        None => None,
    }
}

/// The model of an optional borrowed value.
pub open spec fn tree_of_ref(json: Option<&Json>) -> Option<JsonTree> {
    match json {
        Some(j) => Some(j@),
        None => None,
    }
}

impl Clone for Json {
    fn clone(&self) -> (copy: Json)
        ensures
            copy@ == self@,
        decreases self,
    {
        match self {
            Json::Null => Json::Null,
            Json::Bool(b) => Json::Bool(*b),
            Json::Number(n) => Json::Number(*n),
            Json::Text(s) => Json::Text(s.clone()),
            Json::List(items) => {
                let mut copies: Vec<Json> = Vec::new();
                let mut i: usize = 0;
                while i < items.len()
                    invariant
                        i <= items.len(),
                        copies.len() == i,
                        forall|k: int| 0 <= k < i ==> copies[k]@ == items[k]@,
                        self == Json::List(*items),
                    decreases items.len() - i,
                {
                    assert(self is List && self->List_0 == *items);
                    assert(decreases_to!(*self => self->List_0));
                    assert(decreases_to!(*items => items[i as int]));
                    let copy = items[i].clone();
                    copies.push(copy);
                    i += 1;
                }
                let copy = Json::List(copies);
                assert(copy@ == self@) by {
                    lemma_list_trees(copies, copies.len() as nat);
                    lemma_list_trees(*items, items.len() as nat);
                    assert(copy@->List_0 =~= self@->List_0);
                }
                copy
            },
            Json::Object(members) => {
                let mut copies: Vec<(String, Json)> = Vec::new();
                let mut i: usize = 0;
                while i < members.len()
                    invariant
                        i <= members.len(),
                        copies.len() == i,
                        forall|k: int|
                            0 <= k < i ==> copies[k].0@ == members[k].0@ && copies[k].1@
                                == members[k].1@,
                        self == Json::Object(*members),
                    decreases members.len() - i,
                {
                    let name = members[i].0.clone();
                    assert(self is Object && self->Object_0 == *members);
                    assert(decreases_to!(*self => self->Object_0));
                    assert(decreases_to!(*members => members[i as int]));
                    assert(decreases_to!(members[i as int] => members[i as int].1));
                    let value = members[i].1.clone();
                    copies.push((name, value));
                    i += 1;
                }
                let copy = Json::Object(copies);
                assert(copy@ == self@) by {
                    lemma_member_trees(copies, copies.len() as nat);
                    lemma_member_trees(*members, members.len() as nat);
                    assert(copy@->Object_0 =~= self@->Object_0);
                }
                copy
            },
        }
    }
}

impl Json {
    /// The member `key` of an object.
    pub fn get(&self, key: &str) -> (found: Option<&Json>)
        ensures
            tree_of_ref(found) == self@.member(key@),
    {
        match self {
            Json::Object(members) => {
                let ghost all = self@->Object_0;
                let mut i: usize = 0;
                proof {
                    lemma_member_trees(*members, members.len() as nat);
                    assert(all.skip(0) =~= all);
                }
                while i < members.len()
                    invariant
                        i <= members.len(),
                        self@ == JsonTree::Object(all),
                        all.len() == members.len(),
                        forall|k: int|
                            0 <= k < all.len() ==> #[trigger] all[k] == (
                                members[k].0@,
                                members[k].1@,
                            ),
                        first_member(all, key@) == first_member(all.skip(i as int), key@),
                    decreases members.len() - i,
                {
                    let ghost rest = all.skip(i as int);
                    assert(rest[0] == all[i as int]);
                    assert(rest.drop_first() =~= all.skip(i + 1));
                    if str_eq(members[i].0.as_str(), key) {
                        assert(first_member(rest, key@) == Some(rest[0].1));
                        return Some(&members[i].1);
                    }
                    assert(first_member(rest, key@) == first_member(rest.drop_first(), key@));
                    i += 1;
                }
                assert(all.skip(i as int).len() == 0);
                None
            },
            _ => None,
        }
    }

    /// The items of a list.
    pub fn as_list(&self) -> (items: Option<&Vec<Json>>)
        ensures
            match items {
                Some(v) => self@ == JsonTree::List(v.deep_view()),
                None => !(self@ is List),
            },
    {
        match self {
            Json::List(items) => {
                proof {
                    lemma_list_view(*items);
                }
                Some(items)
            },
            _ => None,
        }
    }

    /// The members of an object.
    pub fn as_members(&self) -> (members: Option<&Vec<(String, Json)>>)
        ensures
            match members {
                Some(v) => self@ == JsonTree::Object(members_view(v@)),
                None => !(self@ is Object),
            },
    {
        match self {
            Json::Object(members) => {
                proof {
                    lemma_object_view(*members);
                }
                Some(members)
            },
            _ => None,
        }
    }

    /// Whether this is the value `null`.
    pub fn is_null(&self) -> (null: bool)
        ensures
            null == (self@ is Null),
    {
        match self {
            Json::Null => true,
            _ => false,
        }
    }

    /// The number, where this is an unsigned integer of at most 64 bits.
    pub fn as_u64(&self) -> (number: Option<u64>)
        ensures
            number == self@.unsigned(),
    {
        match self {
            Json::Number(n) => *n,
            _ => None,
        }
    }

    /// The characters of a string value.
    pub fn as_text(&self) -> (text: Option<&str>)
        ensures
            match text {
                Some(s) => self@.text() == Some(s@),
                None => self@.text() is None,
            },
    {
        match self {
            Json::Text(s) => Some(s.as_str()),
            _ => None,
        }
    }

    /// The string held by member `key`, if it is there and is a string.
    pub fn get_text(&self, key: &str) -> (text: Option<&str>)
        ensures
            match text {
                Some(s) => self@.text_member(key@) == Some(s@),
                None => self@.text_member(key@) is None,
            },
    {
        match self.get(key) {
            Some(value) => value.as_text(),
            None => None,
        }
    }
}

/// `serde_json::Value`, the tree that `serde_json` builds from a text.
#[verifier::external_type_specification]
#[verifier::external_body]
pub struct ExValue(serde_json::Value);

/// What `serde_json::from_str` makes of a text: the tree of the document,
/// or `None` where the text is not one JSON document.
pub uninterp spec fn json_document(text: Seq<char>) -> Option<JsonTree>;

/// What a `serde_json::Value` holds.
pub uninterp spec fn json_tree(value: serde_json::Value) -> JsonTree;

/// How deep a `serde_json::Value` is nested: more deeply than any of the
/// values that it holds.
pub uninterp spec fn json_depth(value: serde_json::Value) -> nat;

/// The outermost level of a `serde_json::Value`: its kind, with what it
/// holds still as `serde_json` built it.
enum ValueShape {
    Null,
    Bool(bool),
    Number(Option<u64>),
    Text(String),
    List(Vec<serde_json::Value>),
    Object(Vec<(String, serde_json::Value)>),
}

/// The trees of the values `items`.
spec fn item_trees(items: Seq<serde_json::Value>) -> Seq<JsonTree> {
    Seq::new(items.len(), |i: int| json_tree(items[i]))
}

/// The names and trees of the members `members`.
spec fn entry_trees(members: Seq<(String, serde_json::Value)>) -> Seq<(Seq<char>, JsonTree)> {
    Seq::new(members.len(), |i: int| (members[i].0@, json_tree(members[i].1)))
}

impl ValueShape {
    /// The tree that a value of this shape holds.
    spec fn tree(self) -> JsonTree {
        match self {
            ValueShape::Null => JsonTree::Null,
            ValueShape::Bool(b) => JsonTree::Bool(b),
            ValueShape::Number(n) => JsonTree::Number(n),
            ValueShape::Text(s) => JsonTree::Text(s@),
            ValueShape::List(items) => JsonTree::List(item_trees(items@)),
            ValueShape::Object(members) => JsonTree::Object(entry_trees(members@)),
        }
    }

    /// Whether each value that this shape holds is nested less deeply than
    /// `depth`.
    spec fn shallower_than(self, depth: nat) -> bool {
        match self {
            ValueShape::List(items) => forall|i: int|
                0 <= i < items.len() ==> json_depth(#[trigger] items[i]) < depth,
            ValueShape::Object(members) => forall|i: int|
                0 <= i < members.len() ==> json_depth((#[trigger] members[i]).1) < depth,
            _ => true,
        }
    }
}

/// Calls `serde_json::from_str` for a `serde_json::Value`. The contract
/// claims only that the outcome is a function of the text: the tree that
/// the returned value holds is the one that `json_document` names, and
/// there is no value exactly where it names none.
#[verifier::external_body]
fn value_from_str(text: &str) -> (parsed: Option<serde_json::Value>)
    ensures
        match parsed {
            Some(value) => json_document(text@) == Some(json_tree(value)),
            None => json_document(text@) is None,
        },
{
    serde_json::from_str::<serde_json::Value>(text).ok()
}

/// Takes a `serde_json::Value` apart, one arm for each of its variants:
/// the fields are moved as they are, but that of a number it keeps what
/// `serde_json::Number::as_u64` returns, and the members of an object
/// come in the order in which `serde_json::Map` hands them out. The
/// contract claims that the value holds what its parts hold, and that
/// its parts are nested less deeply than the value itself.
#[verifier::external_body]
fn value_shape(value: serde_json::Value) -> (shape: ValueShape)
    ensures
        shape.tree() == json_tree(value),
        shape.shallower_than(json_depth(value)),
{
    match value {
        serde_json::Value::Null => ValueShape::Null,
        serde_json::Value::Bool(b) => ValueShape::Bool(b),
        serde_json::Value::Number(n) => ValueShape::Number(n.as_u64()),
        serde_json::Value::String(s) => ValueShape::Text(s),
        serde_json::Value::Array(items) => ValueShape::List(items),
        serde_json::Value::Object(members) => ValueShape::Object(members.into_iter().collect()),
    }
}

/// The [`Json`] that holds what a `serde_json::Value` holds.
fn json_from_value(value: serde_json::Value) -> (json: Json)
    ensures
        json@ == json_tree(value),
    decreases json_depth(value),
{
    let ghost depth = json_depth(value);
    match value_shape(value) {
        ValueShape::Null => Json::Null,
        ValueShape::Bool(b) => Json::Bool(b),
        ValueShape::Number(n) => Json::Number(n),
        ValueShape::Text(s) => Json::Text(s),
        ValueShape::List(items) => {
            let ghost all = items@;
            let mut converted: Vec<Json> = Vec::new();
            for item in it: items
                invariant
                    it.seq() == all,
                    converted.len() == it.index(),
                    depth == json_depth(value),
                    forall|i: int| 0 <= i < all.len() ==> json_depth(#[trigger] all[i]) < depth,
                    forall|k: int|
                        0 <= k < converted.len() ==> (#[trigger] converted[k])@ == json_tree(all[k]),
            {
                assert(item == all[it.index() as int]);
                let json = json_from_value(item);
                converted.push(json);
            }
            proof {
                lemma_list_view(converted);
                assert(converted.deep_view() =~= item_trees(all));
            }
            Json::List(converted)
        },
        ValueShape::Object(members) => {
            let ghost all = members@;
            let mut converted: Vec<(String, Json)> = Vec::new();
            for member in it: members
                invariant
                    it.seq() == all,
                    converted.len() == it.index(),
                    depth == json_depth(value),
                    forall|i: int| 0 <= i < all.len() ==> json_depth((#[trigger] all[i]).1) < depth,
                    forall|k: int|
                        0 <= k < converted.len() ==> (#[trigger] converted[k]).0@ == all[k].0@
                            && converted[k].1@ == json_tree(all[k].1),
            {
                assert(member == all[it.index() as int]);
                let (name, inner) = member;
                let json = json_from_value(inner);
                converted.push((name, json));
            }
            proof {
                lemma_object_view(converted);
                assert(members_view(converted@) =~= entry_trees(all));
            }
            Json::Object(converted)
        },
    }
}

/// Reads one JSON document from `text`.
pub fn parse_json(text: &str) -> (parsed: Option<Json>)
    ensures
        tree_of(parsed) == json_document(text@),
{
    match value_from_str(text) {
        Some(value) => Some(json_from_value(value)),
        None => None,
    }
}

} // verus!
