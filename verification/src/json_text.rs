//! JSON texts.
//!
//! `serde_json` reads and writes the texts. Its values are taken apart and put
//! together one level at a time; the trees are walked here.
use vstd::prelude::*;
use crate::json::{
    Json, JsonView, Object, entries_model, items_model, is_plain, lemma_push_entry,
    nests_within,
    number_model,
};
use crate::text::text_eq;

verus! {

/// How deep arrays and objects may be nested in a text that is read.
pub const READ_DEPTH: u64 = 127;

/// `serde_json::Value`, a parsed JSON text.
#[verifier::external_type_specification]
#[verifier::external_body]
pub struct ExValue(serde_json::Value);

/// `serde_json::Error`, the reason why a text was not read.
#[verifier::external_type_specification]
#[verifier::external_body]
pub struct ExError(serde_json::Error);

/// What a `serde_json::Value` holds.
pub uninterp spec fn value_model(value: serde_json::Value) -> JsonView;

/// What `serde_json` reads out of a text: a value, or the message of the error.
pub uninterp spec fn parsed_json(text: Seq<char>) -> Result<JsonView, Seq<char>>;

/// The message of a `serde_json::Error`.
pub uninterp spec fn error_message(error: serde_json::Error) -> Seq<char>;

/// The compact text that `serde_json` writes for a value.
pub uninterp spec fn json_text(value: JsonView) -> Seq<char>;

/// One level of a `serde_json::Value`.
enum Level {
    Null,
    Bool(bool),
    Number(serde_json::Number),
    Str(String),
    Array(Vec<serde_json::Value>),
    Object(Vec<(String, serde_json::Value)>),
}

spec fn values_model(values: Seq<serde_json::Value>) -> Seq<JsonView> {
    values.map_values(|value: serde_json::Value| value_model(value))
}

spec fn members_model(members: Seq<(String, serde_json::Value)>) -> Map<Seq<char>, JsonView>
    decreases members.len(),
{
    if members.len() == 0 {
        Map::empty()
    } else {
        members_model(members.drop_last()).insert(members.last().0@, value_model(members.last().1))
    }
}

spec fn distinct_keys(members: Seq<(String, serde_json::Value)>) -> bool {
    forall|i: int, j: int|
        0 <= i < j < members.len() ==> (#[trigger] members[i]).0@ != (#[trigger] members[j]).0@
}

spec fn level_model(level: Level) -> JsonView {
    match level {
        Level::Null => JsonView::Null,
        Level::Bool(b) => JsonView::Bool(b),
        Level::Number(n) => JsonView::Number(number_model(n)),
        Level::Str(s) => JsonView::Str(s@),
        Level::Array(values) => JsonView::Array(values_model(values@)),
        Level::Object(members) => JsonView::Object(members_model(members@)),
    }
}

/// `serde_json::from_str` reads a value out of a text. It refuses a text in which
/// arrays and objects are nested too deeply, so a value that was read is not.
#[verifier::external_body]
fn read_value(text: &str) -> (value: Result<serde_json::Value, serde_json::Error>)
    ensures
        match value {
            Ok(v) => parsed_json(text@) == Ok::<JsonView, Seq<char>>(value_model(v)),
            Err(e) => parsed_json(text@) == Err::<JsonView, Seq<char>>(error_message(e)),
        },
        (value matches Ok(v) ==> nests_within(value_model(v), READ_DEPTH as nat)),
{
    serde_json::from_str(text)
}

/// `serde_json::Error::to_string` writes the message of the error.
#[verifier::external_body]
fn message_of(error: &serde_json::Error) -> (message: String)
    ensures
        message@ == error_message(*error),
{
    error.to_string()
}

/// `serde_json::Value::to_string` writes the compact text of the value. A value
/// without fractions, and nested no deeper than `serde_json::from_str` reads, is
/// read back out of its text.
#[verifier::external_body]
fn write_value(value: &serde_json::Value) -> (text: String)
    ensures
        text@ == json_text(value_model(*value)),
        (is_plain(value_model(*value), READ_DEPTH as nat) ==> parsed_json(text@) == Ok::<
            JsonView,
            Seq<char>,
        >(value_model(*value))),
{
    value.to_string()
}

/// Takes a `serde_json::Value` apart. The keys that `serde_json::Map` hands out
/// are distinct.
#[verifier::external_body]
fn open_value(value: serde_json::Value) -> (level: Level)
    ensures
        level_model(level) == value_model(value),
        level matches Level::Object(members) ==> distinct_keys(members@),
{
    match value {
        serde_json::Value::Null => Level::Null,
        serde_json::Value::Bool(b) => Level::Bool(b),
        serde_json::Value::Number(n) => Level::Number(n),
        serde_json::Value::String(s) => Level::Str(s),
        serde_json::Value::Array(values) => Level::Array(values),
        serde_json::Value::Object(members) => Level::Object(members.into_iter().collect()),
    }
}

/// Puts a `serde_json::Value` together. `serde_json::Map::from_iter` keeps every
/// member, since the keys are distinct.
#[verifier::external_body]
fn close_value(level: Level) -> (value: serde_json::Value)
    requires
        level matches Level::Object(members) ==> distinct_keys(members@),
    ensures
        value_model(value) == level_model(level),
{
    match level {
        Level::Null => serde_json::Value::Null,
        Level::Bool(b) => serde_json::Value::Bool(b),
        Level::Number(n) => serde_json::Value::Number(n),
        Level::Str(s) => serde_json::Value::String(s),
        Level::Array(values) => serde_json::Value::Array(values),
        Level::Object(members) => serde_json::Value::Object(members.into_iter().collect()),
    }
}

proof fn lemma_members(members: Seq<(String, serde_json::Value)>)
    ensures
        members_model(members).dom().finite(),
        forall|key: Seq<char>| #[trigger]
            members_model(members).dom().contains(key) <==> exists|i: int|
                0 <= i < members.len() && (#[trigger] members[i]).0@ == key,
        distinct_keys(members) ==> forall|i: int|
            0 <= i < members.len() ==> members_model(members)[(#[trigger] members[i]).0@]
                == value_model(members[i].1),
    decreases members.len(),
{
    if members.len() > 0 {
        let front = members.drop_last();
        lemma_members(front);
        assert(forall|i: int| 0 <= i < front.len() ==> front[i] == members[i]);
        assert forall|key: Seq<char>| #[trigger]
            members_model(members).dom().contains(key) implies exists|i: int|
            0 <= i < members.len() && (#[trigger] members[i]).0@ == key by {
            if key == members.last().0@ {
                assert(members[members.len() - 1].0@ == key);
            } else {
                assert(members_model(front).dom().contains(key));
                let i = choose|i: int| 0 <= i < front.len() && (#[trigger] front[i]).0@ == key;
                assert(members[i].0@ == key);
            }
        }
        assert forall|i: int| 0 <= i < members.len() implies members_model(members).dom().contains(
            (#[trigger] members[i]).0@,
        ) by {
            if i < front.len() {
                assert(front[i] == members[i]);
                assert(members_model(front).dom().contains(front[i].0@));
            }
        }
        if distinct_keys(members) {
            assert(distinct_keys(front));
            assert forall|i: int| 0 <= i < members.len() implies members_model(
                members,
            )[(#[trigger] members[i]).0@] == value_model(members[i].1) by {
                if i < front.len() {
                    assert(front[i] == members[i]);
                    assert(members[i].0@ != members[members.len() - 1].0@);
                }
            }
        }
    }
}

/// The tree of a `serde_json::Value`.
fn tree_of(value: serde_json::Value) -> (json: Json)
    ensures
        json@ == value_model(value),
    decreases value_model(value),
{
    let ghost whole = value_model(value);
    match open_value(value) {
        Level::Null => Json::Null,
        Level::Bool(b) => Json::Bool(b),
        Level::Number(n) => Json::Number(n),
        Level::Str(s) => Json::Str(s),
        Level::Array(values) => {
            let ghost all = values@;
            let mut items: Vec<Json> = Vec::new();
            for item in it: values
                invariant
                    it.seq() == all,
                    whole == value_model(value),
                    whole == JsonView::Array(values_model(all)),
                    items_model(items@) == values_model(all.take(it.index() as int)),
            {
                let ghost k = it.index() as int;
                let ghost done = items@;
                assert(decreases_to!(whole => whole->Array_0));
                assert(decreases_to!(values_model(all) => values_model(all)[k]));
                let tree = tree_of(item);
                items.push(tree);
                assert(items_model(items@) =~= items_model(done).push(tree@));
                assert(values_model(all.take(k + 1)) =~= values_model(all.take(k)).push(tree@));
            }
            assert(all.take(all.len() as int) =~= all);
            Json::Array(items)
        },
        Level::Object(members) => {
            let ghost all = members@;
            let mut entries: Vec<(String, Json)> = Vec::new();
            for member in it: members
                invariant
                    it.seq() == all,
                    distinct_keys(all),
                    whole == value_model(value),
                    whole == JsonView::Object(members_model(all)),
                    entries_model(entries@) == members_model(all.take(it.index() as int)),
            {
                let ghost k = it.index() as int;
                let ghost front = all.take(k);
                let (key, item) = member;
                assert(all[k] == (key, item));
                proof {
                    lemma_members(all);
                    lemma_members(front);
                    assert forall|i: int| 0 <= i < front.len() implies (#[trigger] front[i]).0@
                        != key@ by {
                        assert(front[i] == all[i]);
                    }
                    assert(!members_model(front).dom().contains(key@));
                }
                assert(decreases_to!(whole => whole->Object_0));
                assert(decreases_to!(members_model(all) => members_model(all)[key@]));
                let tree = tree_of(item);
                let entry = (key, tree);
                proof {
                    lemma_push_entry(entries@, entry);
                }
                entries.push(entry);
                assert(all.take(k + 1).drop_last() =~= front);
            }
            assert(all.take(all.len() as int) =~= all);
            Json::Object(Object { entries })
        },
    }
}

/// Whether a key is among the members.
fn has_key(members: &Vec<(String, serde_json::Value)>, key: &str) -> (found: bool)
    ensures
        found == members_model(members@).dom().contains(key@),
{
    proof {
        lemma_members(members@);
    }
    let mut i: usize = 0;
    while i < members.len()
        invariant
            i <= members@.len(),
            forall|j: int| 0 <= j < i ==> (#[trigger] members@[j]).0@ != key@,
        decreases members@.len() - i,
    {
        if text_eq(members[i].0.as_str(), key) {
            proof {
                lemma_members(members@);
                assert(members@[i as int].0@ == key@);
            }
            return true;
        }
        i = i + 1;
    }
    false
}

/// The `serde_json::Value` of a tree.
fn value_of(json: &Json) -> (value: serde_json::Value)
    ensures
        value_model(value) == json@,
    decreases json,
{
    match json {
        Json::Null => close_value(Level::Null),
        Json::Bool(b) => close_value(Level::Bool(*b)),
        Json::Number(n) => close_value(Level::Number(n.clone())),
        Json::Str(s) => close_value(Level::Str(s.clone())),
        Json::Array(items) => {
            let mut values: Vec<serde_json::Value> = Vec::new();
            let mut i: usize = 0;
            while i < items.len()
                invariant
                    json == Json::Array(*items),
                    i <= items@.len(),
                    values_model(values@) == items_model(items@.take(i as int)),
                decreases items@.len() - i,
            {
                let ghost done = values@;
                assert(decreases_to!(json => json->Array_0));
                assert(decreases_to!(items => items@));
                assert(decreases_to!(items@ => items@[i as int]));
                let value = value_of(&items[i]);
                values.push(value);
                assert(values_model(values@) =~= values_model(done).push(value_model(value)));
                assert(items_model(items@.take(i + 1)) =~= items_model(items@.take(i as int)).push(
                    items@[i as int]@,
                ));
                i = i + 1;
            }
            assert(items@.take(i as int) =~= items@);
            close_value(Level::Array(values))
        },
        Json::Object(object) => {
            let mut members: Vec<(String, serde_json::Value)> = Vec::new();
            let mut i: usize = 0;
            while i < object.entries.len()
                invariant
                    json == Json::Object(*object),
                    i <= object.entries@.len(),
                    distinct_keys(members@),
                    members_model(members@) == entries_model(object.entries@.take(i as int)),
                decreases object.entries@.len() - i,
            {
                let entry = &object.entries[i];
                let ghost entries = object.entries@;
                assert(entries.take(i + 1) =~= entries.take(i as int).push(entries[i as int]));
                proof {
                    lemma_push_entry(entries.take(i as int), entries[i as int]);
                    lemma_members(members@);
                }
                if !has_key(&members, entry.0.as_str()) {
                    let ghost done = members@;
                    assert(decreases_to!(json => json->Object_0));
                    assert(decreases_to!(object => object.entries));
                    assert(decreases_to!(object.entries => object.entries@));
                    assert(decreases_to!(entries => entries[i as int]));
                    assert(decreases_to!(entries[i as int] => entries[i as int].1));
                    let value = value_of(&entry.1);
                    members.push((entry.0.clone(), value));
                    assert(members@.drop_last() =~= done);
                    assert(forall|j: int| 0 <= j < done.len() ==> members@[j] == done[j]);
                    assert(distinct_keys(members@));
                }
                i = i + 1;
            }
            assert(object.entries@.take(i as int) =~= object.entries@);
            close_value(Level::Object(members))
        },
    }
}

/// Whether what a text reads as is nested no deeper than texts are read.
pub open spec fn reads_within_depth(text: Seq<char>) -> bool {
    parsed_json(text) matches Ok(value) ==> nests_within(value, READ_DEPTH as nat)
}

/// Whether a text is the compact text of a value, out of which the value is read
/// back if it holds no fractions and is not nested too deeply.
pub open spec fn is_text_of(text: Seq<char>, value: JsonView) -> bool {
    &&& text == json_text(value)
    &&& is_plain(value, READ_DEPTH as nat) ==> parsed_json(text) == Ok::<JsonView, Seq<char>>(value)
}

/// Reads a JSON text.
pub fn parse(text: &str) -> (json: Result<Json, String>)
    ensures
        reads_within_depth(text@),
        match json {
            Ok(value) => parsed_json(text@) == Ok::<JsonView, Seq<char>>(value@),
            Err(message) => parsed_json(text@) == Err::<JsonView, Seq<char>>(message@),
        },
{
    match read_value(text) {
        Ok(value) => Ok(tree_of(value)),
        Err(error) => Err(message_of(&error)),
    }
}

impl Json {
    /// The compact JSON text of the value. A value without fractions that is not
    /// nested too deeply is read back out of it.
    pub fn to_text(&self) -> (text: String)
        ensures
            is_text_of(text@, self@),
    {
        write_value(&value_of(self))
    }
}

} // verus!
