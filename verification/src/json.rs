//! JSON values.
//!
//! A [`Json`] is a tree of plain values; its model is a [`JsonView`], in which
//! an object is a map from key to value.
use vstd::prelude::*;
use crate::text::text_eq;

verus! {

/// `serde_json::Number`, a number out of a JSON text: an integer, or a fraction.
#[verifier::external_type_specification]
#[verifier::external_body]
pub struct ExNumber(serde_json::Number);

/// The integer that a `serde_json::Number` holds, if it holds one.
pub uninterp spec fn number_value(n: serde_json::Number) -> Option<int>;

/// `serde_json::Number::clone` copies the number.
pub assume_specification[ <serde_json::Number as Clone>::clone ](
    n: &serde_json::Number,
) -> (copy: serde_json::Number)
    ensures
        copy == *n,
;

/// `serde_json::Number::as_u64` gives the integer if it fits in 64 unsigned bits.
pub assume_specification[ serde_json::Number::as_u64 ](n: &serde_json::Number) -> (value: Option<
    u64,
>)
    ensures
        match value {
            Some(v) => number_value(*n) == Some(v as int),
            None => !(number_value(*n) matches Some(v) && 0 <= v <= u64::MAX),
        },
;

/// `serde_json::Number::as_i64` gives the integer if it fits in 64 signed bits.
pub assume_specification[ serde_json::Number::as_i64 ](n: &serde_json::Number) -> (value: Option<
    i64,
>)
    ensures
        match value {
            Some(v) => number_value(*n) == Some(v as int),
            None => !(number_value(*n) matches Some(v) && i64::MIN <= v <= i64::MAX),
        },
;

/// Whether two `serde_json::Number`s compare as equal.
pub uninterp spec fn same_number(a: serde_json::Number, b: serde_json::Number) -> bool;

/// `serde_json::Number::eq` compares integers by their value, tells an integer
/// from a fraction, and takes a number as equal to itself. Of two fractions no
/// more is stated: zero is equal to negative zero, which is written otherwise.
#[verifier::external_body]
fn number_eq(a: &serde_json::Number, b: &serde_json::Number) -> (same: bool)
    ensures
        same == same_number(*a, *b),
        number_value(*a) is Some || number_value(*b) is Some ==> same == (number_value(*a)
            == number_value(*b)),
        *a == *b ==> same,
{
    a == b
}

/// `serde_json::Number::from` makes a number that holds the integer.
#[verifier::external_body]
fn number_from(n: u64) -> (number: serde_json::Number)
    ensures
        number_value(number) == Some(n as int),
{
    serde_json::Number::from(n)
}

/// What a number means: the integer it is, or the fraction, as it came.
pub enum NumberView {
    Integer(int),
    Fraction(serde_json::Number),
}

pub open spec fn number_model(n: serde_json::Number) -> NumberView {
    match number_value(n) {
        Some(v) => NumberView::Integer(v),
        None => NumberView::Fraction(n),
    }
}

/// A JSON value.
#[derive(Debug)]
pub enum Json {
    Null,
    Bool(bool),
    Number(serde_json::Number),
    Str(String),
    Array(Vec<Json>),
    Object(Object),
}

/// The members of a JSON object. Of two entries with one key the first counts.
#[derive(Debug)]
pub struct Object {
    pub entries: Vec<(String, Json)>,
}

/// What a JSON value means.
#[verifier::ext_equal]
pub enum JsonView {
    Null,
    Bool(bool),
    Number(NumberView),
    Str(Seq<char>),
    Array(Seq<JsonView>),
    Object(Map<Seq<char>, JsonView>),
}

impl View for Json {
    type V = JsonView;

    open spec fn view(&self) -> JsonView {
        json_model(*self)
    }
}

impl View for Object {
    type V = Map<Seq<char>, JsonView>;

    open spec fn view(&self) -> Map<Seq<char>, JsonView> {
        entries_model(self.entries@)
    }
}

pub open spec fn json_model(json: Json) -> JsonView
    decreases json,
{
    match json {
        Json::Null => JsonView::Null,
        Json::Bool(b) => JsonView::Bool(b),
        Json::Number(n) => JsonView::Number(number_model(n)),
        Json::Str(s) => JsonView::Str(s@),
        Json::Array(items) => JsonView::Array(items_model(items@)),
        Json::Object(object) => JsonView::Object(entries_model(object.entries@)),
    }
}

/// The models of the values of a sequence.
pub open spec fn items_model(items: Seq<Json>) -> Seq<JsonView>
    decreases items,
{
    Seq::new(
        items.len(),
        |i: int|
            if 0 <= i < items.len() {
                json_model(items[i])
            } else {
                JsonView::Null
            },
    )
}

/// The map that a list of entries stands for: the first entry of a key counts.
pub open spec fn entries_model(entries: Seq<(String, Json)>) -> Map<Seq<char>, JsonView>
    decreases entries,
{
    if entries.len() == 0 {
        Map::empty()
    } else {
        entries_model(entries.drop_first()).insert(entries[0].0@, json_model(entries[0].1))
    }
}

impl JsonView {
    /// The member of an object under a key.
    pub open spec fn get(self, key: Seq<char>) -> Option<JsonView> {
        match self {
            JsonView::Object(members) => if members.dom().contains(key) {
                Some(members[key])
            } else {
                None
            },
            _ => None,
        }
    }

    /// The member under a key, null where there is none.
    pub open spec fn field(self, key: Seq<char>) -> JsonView {
        match self.get(key) {
            Some(value) => value,
            None => JsonView::Null,
        }
    }

    pub open spec fn as_str(self) -> Option<Seq<char>> {
        match self {
            JsonView::Str(s) => Some(s),
            _ => None,
        }
    }

    pub open spec fn as_array(self) -> Option<Seq<JsonView>> {
        match self {
            JsonView::Array(items) => Some(items),
            _ => None,
        }
    }

    /// The value of an integer that fits in 64 unsigned bits.
    pub open spec fn as_u64(self) -> Option<u64> {
        match self {
            JsonView::Number(NumberView::Integer(n)) => if 0 <= n <= u64::MAX {
                Some(n as u64)
            } else {
                None
            },
            _ => None,
        }
    }

    /// The value of an integer that fits in 64 signed bits.
    pub open spec fn as_i64(self) -> Option<i64> {
        match self {
            JsonView::Number(NumberView::Integer(n)) => if i64::MIN <= n <= i64::MAX {
                Some(n as i64)
            } else {
                None
            },
            _ => None,
        }
    }

    /// The text under a key.
    pub open spec fn str_at(self, key: Seq<char>) -> Option<Seq<char>> {
        self.field(key).as_str()
    }

    /// The array under a key.
    pub open spec fn array_at(self, key: Seq<char>) -> Option<Seq<JsonView>> {
        self.field(key).as_array()
    }
}

/// Whether a value holds no fractions, and nests arrays and objects at most to a
/// depth.
pub open spec fn is_plain(value: JsonView, depth: nat) -> bool
    decreases depth,
{
    match value {
        JsonView::Number(NumberView::Fraction(_)) => false,
        JsonView::Array(items) => depth > 0 && forall|i: int|
            0 <= i < items.len() ==> is_plain(#[trigger] items[i], (depth - 1) as nat),
        JsonView::Object(members) => depth > 0 && forall|key: Seq<char>|
            members.dom().contains(key) ==> is_plain(#[trigger] members[key], (depth - 1) as nat),
        _ => true,
    }
}

/// Whether a value nests arrays and objects at most to a depth.
pub open spec fn nests_within(value: JsonView, depth: nat) -> bool
    decreases depth,
{
    match value {
        JsonView::Array(items) => depth > 0 && forall|i: int|
            0 <= i < items.len() ==> nests_within(#[trigger] items[i], (depth - 1) as nat),
        JsonView::Object(members) => depth > 0 && forall|key: Seq<char>|
            members.dom().contains(key) ==> nests_within(
                #[trigger] members[key],
                (depth - 1) as nat,
            ),
        _ => true,
    }
}

/// Whether a value holds no fractions.
pub open spec fn without_fractions(value: JsonView) -> bool
    decreases value,
{
    match value {
        JsonView::Number(NumberView::Fraction(_)) => false,
        JsonView::Array(items) => forall|i: int|
            0 <= i < items.len() ==> without_fractions(#[trigger] items[i]),
        JsonView::Object(members) => forall|key: Seq<char>|
            members.dom().contains(key) ==> without_fractions(#[trigger] members[key]),
        _ => true,
    }
}

/// A value is plain if it holds no fractions and is not nested too deeply.
pub proof fn lemma_plain(value: JsonView, depth: nat)
    requires
        nests_within(value, depth),
        without_fractions(value),
    ensures
        is_plain(value, depth),
    decreases depth,
{
    match value {
        JsonView::Array(items) => {
            assert forall|i: int| 0 <= i < items.len() implies is_plain(
                #[trigger] items[i],
                (depth - 1) as nat,
            ) by {
                lemma_plain(items[i], (depth - 1) as nat);
            }
        },
        JsonView::Object(members) => {
            assert forall|key: Seq<char>| members.dom().contains(key) implies is_plain(
                #[trigger] members[key],
                (depth - 1) as nat,
            ) by {
                lemma_plain(members[key], (depth - 1) as nat);
            }
        },
        _ => {},
    }
}

/// The items of a plain array are plain.
pub proof fn lemma_plain_items(items: Seq<JsonView>, depth: nat)
    requires
        is_plain(JsonView::Array(items), depth),
    ensures
        depth > 0,
        forall|i: int|
            0 <= i < items.len() ==> is_plain(#[trigger] items[i], (depth - 1) as nat),
{
    let whole = JsonView::Array(items);
    match whole {
        JsonView::Array(inner) => {
            assert(inner == items);
        },
        _ => {},
    }
}

/// The members of a plain object are plain.
pub proof fn lemma_plain_members(members: Map<Seq<char>, JsonView>, depth: nat)
    requires
        is_plain(JsonView::Object(members), depth),
    ensures
        depth > 0,
        forall|key: Seq<char>|
            members.dom().contains(key) ==> is_plain(
                #[trigger] members[key],
                (depth - 1) as nat,
            ),
{
    let whole = JsonView::Object(members);
    match whole {
        JsonView::Object(inner) => {
            assert(inner == members);
        },
        _ => {},
    }
}

/// A plain value is plain at any greater depth.
pub proof fn lemma_plain_deeper(value: JsonView, depth: nat, deeper: nat)
    requires
        is_plain(value, depth),
        depth <= deeper,
    ensures
        is_plain(value, deeper),
    decreases depth,
{
    match value {
        JsonView::Array(items) => {
            assert forall|i: int| 0 <= i < items.len() implies is_plain(
                #[trigger] items[i],
                (deeper - 1) as nat,
            ) by {
                lemma_plain_deeper(items[i], (depth - 1) as nat, (deeper - 1) as nat);
            }
        },
        JsonView::Object(members) => {
            assert forall|key: Seq<char>| members.dom().contains(key) implies is_plain(
                #[trigger] members[key],
                (deeper - 1) as nat,
            ) by {
                lemma_plain_deeper(members[key], (depth - 1) as nat, (deeper - 1) as nat);
            }
        },
        _ => {},
    }
}

/// Whether two numbers are equal.
pub open spec fn number_equal(a: NumberView, b: NumberView) -> bool {
    match (a, b) {
        (NumberView::Integer(x), NumberView::Integer(y)) => x == y,
        (NumberView::Fraction(x), NumberView::Fraction(y)) => same_number(x, y),
        _ => false,
    }
}

/// Whether two values are equal: as the numbers, texts, items and members in them
/// are.
pub open spec fn json_equal(a: JsonView, b: JsonView) -> bool
    decreases a,
{
    match (a, b) {
        (JsonView::Null, JsonView::Null) => true,
        (JsonView::Bool(x), JsonView::Bool(y)) => x == y,
        (JsonView::Number(x), JsonView::Number(y)) => number_equal(x, y),
        (JsonView::Str(x), JsonView::Str(y)) => x == y,
        (JsonView::Array(x), JsonView::Array(y)) => x.len() == y.len() && forall|i: int|
            0 <= i < x.len() ==> json_equal(#[trigger] x[i], y[i]),
        (JsonView::Object(x), JsonView::Object(y)) => x.dom() == y.dom() && forall|key: Seq<char>|
            x.dom().contains(key) ==> json_equal(#[trigger] x[key], y[key]),
        _ => false,
    }
}

/// Two values without fractions are equal if and only if they are the same.
pub proof fn plain_values_are_equal_as_the_same(a: JsonView, b: JsonView, depth: nat)
    requires
        is_plain(a, depth),
    ensures
        json_equal(a, b) <==> a == b,
    decreases depth,
{
    match (a, b) {
        (JsonView::Array(x), JsonView::Array(y)) => {
            if x.len() == y.len() {
                assert forall|i: int| 0 <= i < x.len() implies json_equal(#[trigger] x[i], y[i])
                    == (x[i] == y[i]) by {
                    plain_values_are_equal_as_the_same(x[i], y[i], (depth - 1) as nat);
                }
                if json_equal(a, b) {
                    assert(x =~= y);
                }
            }
        },
        (JsonView::Object(x), JsonView::Object(y)) => {
            if x.dom() == y.dom() {
                assert forall|key: Seq<char>| x.dom().contains(key) implies json_equal(
                    #[trigger] x[key],
                    y[key],
                ) == (x[key] == y[key]) by {
                    plain_values_are_equal_as_the_same(x[key], y[key], (depth - 1) as nat);
                }
                if json_equal(a, b) {
                    assert(x =~= y);
                }
            }
        },
        _ => {},
    }
}

/// The view of a value that may be missing.
pub open spec fn opt_model(json: Option<Json>) -> Option<JsonView> {
    match json {
        Some(value) => Some(value@),
        None => None,
    }
}

/// A member that may be missing, with the value that stands in for it.
pub open spec fn or_view(member: Option<JsonView>, default: JsonView) -> JsonView {
    match member {
        Some(value) => value,
        None => default,
    }
}

/// The members with one more, if it is there.
pub open spec fn with_opt(
    members: Map<Seq<char>, JsonView>,
    key: Seq<char>,
    member: Option<JsonView>,
) -> Map<Seq<char>, JsonView> {
    match member {
        Some(value) => members.insert(key, value),
        None => members,
    }
}

/// The JSON value of a text that may be missing.
pub open spec fn opt_str_view(s: Option<Seq<char>>) -> Option<JsonView> {
    match s {
        Some(t) => Some(str_view(t)),
        None => None,
    }
}

/// The JSON value of an array that may be missing.
pub open spec fn opt_array_view(items: Option<Seq<JsonView>>) -> Option<JsonView> {
    match items {
        Some(v) => Some(JsonView::Array(v)),
        None => None,
    }
}

/// The JSON text value of a text.
pub open spec fn str_view(s: Seq<char>) -> JsonView {
    JsonView::Str(s)
}

/// The JSON number of a natural number.
pub open spec fn uint_view(n: u64) -> JsonView {
    JsonView::Number(NumberView::Integer(n as int))
}

proof fn lemma_lookup_skips(entries: Seq<(String, Json)>, key: Seq<char>, n: int)
    requires
        0 <= n <= entries.len(),
        forall|j: int| 0 <= j < n ==> (#[trigger] entries[j]).0@ != key,
    ensures
        entries_model(entries).dom().contains(key) == entries_model(
            entries.skip(n),
        ).dom().contains(key),
        entries_model(entries).dom().contains(key) ==> entries_model(entries)[key]
            == entries_model(entries.skip(n))[key],
    decreases n,
{
    if n > 0 {
        let rest = entries.drop_first();
        assert forall|j: int| 0 <= j < n - 1 implies (#[trigger] rest[j]).0@ != key by {
            assert(rest[j] == entries[j + 1]);
        }
        lemma_lookup_skips(rest, key, n - 1);
        assert(rest.skip(n - 1) =~= entries.skip(n));
        assert(entries[0].0@ != key);
    } else {
        assert(entries.skip(0) =~= entries);
    }
}

pub proof fn lemma_push_entry(entries: Seq<(String, Json)>, entry: (String, Json))
    ensures
        entries_model(entries.push(entry)) == (if entries_model(entries).dom().contains(entry.0@) {
            entries_model(entries)
        } else {
            entries_model(entries).insert(entry.0@, json_model(entry.1))
        }),
    decreases entries.len(),
{
    let all = entries.push(entry);
    if entries.len() == 0 {
        assert(all.drop_first() =~= Seq::<(String, Json)>::empty());
        reveal_with_fuel(entries_model, 2);
    } else {
        assert(all.drop_first() =~= entries.drop_first().push(entry));
        lemma_push_entry(entries.drop_first(), entry);
        if entries_model(entries).dom().contains(entry.0@) {
            assert(entries_model(all) =~= entries_model(entries));
        } else {
            assert(entries_model(all) =~= entries_model(entries).insert(
                entry.0@,
                json_model(entry.1),
            ));
        }
    }
}

impl Object {
    /// An object without members.
    pub fn new() -> (object: Object)
        ensures
            object@ == Map::<Seq<char>, JsonView>::empty(),
    {
        Object { entries: Vec::new() }
    }

    /// The value under a key.
    pub fn get(&self, key: &str) -> (value: Option<&Json>)
        ensures
            match value {
                Some(v) => self@.dom().contains(key@) && self@[key@] == v@,
                None => !self@.dom().contains(key@),
            },
    {
        let mut i: usize = 0;
        while i < self.entries.len()
            invariant
                i <= self.entries@.len(),
                forall|j: int| 0 <= j < i ==> (#[trigger] self.entries@[j]).0@ != key@,
            decreases self.entries@.len() - i,
        {
            if text_eq(self.entries[i].0.as_str(), key) {
                proof {
                    lemma_lookup_skips(self.entries@, key@, i as int);
                    assert(self.entries@.skip(i as int)[0] == self.entries@[i as int]);
                }
                return Some(&self.entries[i].1);
            }
            i = i + 1;
        }
        proof {
            lemma_lookup_skips(self.entries@, key@, i as int);
            assert(self.entries@.skip(i as int) =~= Seq::empty());
        }
        None
    }

    /// Takes the value under a key out of the object.
    pub fn take(&mut self, key: &str) -> (value: Option<Json>)
        ensures
            final(self)@ == old(self)@.remove(key@),
            opt_model(value) == JsonView::Object(old(self)@).get(key@),
    {
        let ghost before = self.entries@;
        let mut entries: Vec<(String, Json)> = Vec::new();
        entries.append(&mut self.entries);
        let mut kept: Vec<(String, Json)> = Vec::new();
        let mut found: Option<Json> = None;
        assert(entries_model(before.take(0)).remove(key@) =~= Map::empty());
        for entry in it: entries
            invariant
                it.seq() == before,
                entries_model(kept@) == entries_model(before.take(it.index() as int)).remove(key@),
                opt_model(found) == JsonView::Object(
                    entries_model(before.take(it.index() as int)),
                ).get(key@),
        {
            let ghost k = it.index() as int;
            assert(before.take(k + 1) =~= before.take(k).push(entry));
            proof {
                lemma_push_entry(before.take(k), entry);
                lemma_push_entry(kept@, entry);
            }
            if text_eq(entry.0.as_str(), key) {
                if found.is_none() {
                    found = Some(entry.1);
                }
            } else {
                kept.push(entry);
            }
            assert(entries_model(kept@) =~= entries_model(before.take(k + 1)).remove(key@));
        }
        assert(before.take(before.len() as int) =~= before);
        self.entries = kept;
        found
    }

    /// Removes the value under a key.
    pub fn remove(&mut self, key: &str)
        ensures
            final(self)@ == old(self)@.remove(key@),
    {
        let _ = self.take(key);
    }

    /// Sets the value under a key.
    pub fn set(&mut self, key: &str, value: Json)
        ensures
            final(self)@ == old(self)@.insert(key@, value@),
    {
        let ghost before = self@;
        self.remove(key);
        let entry = (key.to_owned(), value);
        proof {
            lemma_push_entry(self.entries@, entry);
        }
        self.entries.push(entry);
        assert(self@ =~= before.insert(key@, value@));
    }

    /// Sets the value under a key, if there is one.
    pub fn set_opt(&mut self, key: &str, value: Option<Json>)
        ensures
            final(self)@ == with_opt(old(self)@, key@, opt_model(value)),
    {
        match value {
            Some(v) => self.set(key, v),
            None => {},
        }
    }

    /// The object with the value under a key set.
    pub fn with(self, key: &str, value: Json) -> (object: Object)
        ensures
            object@ == self@.insert(key@, value@),
    {
        let mut object = self;
        object.set(key, value);
        object
    }
}

impl Json {
    /// A text value.
    pub fn text(s: &str) -> (json: Json)
        ensures
            json@ == str_view(s@),
    {
        Json::Str(s.to_owned())
    }

    /// A non-negative integer.
    pub fn uint(n: u64) -> (json: Json)
        ensures
            json@ == uint_view(n),
    {
        Json::Number(number_from(n))
    }

    /// The member under a key.
    pub fn get(&self, key: &str) -> (value: Option<&Json>)
        ensures
            match value {
                Some(v) => self@.get(key@) == Some(v@),
                None => self@.get(key@) is None,
            },
    {
        match self {
            Json::Object(object) => object.get(key),
            _ => None,
        }
    }

    /// The member under a key, null where there is none.
    pub fn field(&self, key: &str) -> (value: &Json)
        ensures
            value@ == self@.field(key@),
    {
        match self.get(key) {
            Some(v) => v,
            None => &Json::Null,
        }
    }

    /// A copy of the member under a key, or the value that stands in for it.
    pub fn member_or(&self, key: &str, default: Json) -> (value: Json)
        ensures
            value@ == or_view(self@.get(key@), default@),
    {
        match self.get(key) {
            Some(v) => v.clone(),
            None => default,
        }
    }

    /// A copy of the text under a key.
    pub fn text_member(&self, key: &str) -> (value: Option<Json>)
        ensures
            opt_model(value) == opt_str_view(self@.str_at(key@)),
    {
        match self.str_at(key) {
            Some(s) => Some(Json::text(s)),
            None => None,
        }
    }

    /// A copy of the array under a key.
    pub fn array_member(&self, key: &str) -> (value: Option<Json>)
        ensures
            opt_model(value) == opt_array_view(self@.array_at(key@)),
    {
        match self.get(key) {
            Some(v) => if v.is_array() {
                Some(v.clone())
            } else {
                None
            },
            None => None,
        }
    }

    pub fn is_array(&self) -> (yes: bool)
        ensures
            yes == (self@ is Array),
    {
        match self {
            Json::Array(_) => true,
            _ => false,
        }
    }

    pub fn as_str(&self) -> (value: Option<&str>)
        ensures
            match value {
                Some(s) => self@.as_str() == Some(s@),
                None => self@.as_str() is None,
            },
    {
        match self {
            Json::Str(s) => Some(s.as_str()),
            _ => None,
        }
    }

    pub fn as_array(&self) -> (value: Option<&Vec<Json>>)
        ensures
            match value {
                Some(items) => self@.as_array() == Some(items_model(items@)),
                None => self@.as_array() is None,
            },
    {
        match self {
            Json::Array(items) => Some(items),
            _ => None,
        }
    }

    pub fn as_u64(&self) -> (value: Option<u64>)
        ensures
            value == self@.as_u64(),
    {
        match self {
            Json::Number(n) => n.as_u64(),
            _ => None,
        }
    }

    pub fn as_i64(&self) -> (value: Option<i64>)
        ensures
            value == self@.as_i64(),
    {
        match self {
            Json::Number(n) => n.as_i64(),
            _ => None,
        }
    }

    /// The text under a key.
    pub fn str_at(&self, key: &str) -> (value: Option<&str>)
        ensures
            match value {
                Some(s) => self@.str_at(key@) == Some(s@),
                None => self@.str_at(key@) is None,
            },
    {
        match self.get(key) {
            Some(v) => v.as_str(),
            None => None,
        }
    }

    /// Whether the value under a key is the given text.
    pub fn str_is(&self, key: &str, text: &str) -> (yes: bool)
        ensures
            yes == (self@.str_at(key@) == Some(text@)),
    {
        match self.str_at(key) {
            Some(s) => text_eq(s, text),
            None => false,
        }
    }

    /// The array under a key.
    pub fn array_at(&self, key: &str) -> (value: Option<&Vec<Json>>)
        ensures
            match value {
                Some(items) => self@.array_at(key@) == Some(items_model(items@)),
                None => self@.array_at(key@) is None,
            },
    {
        match self.get(key) {
            Some(v) => v.as_array(),
            None => None,
        }
    }
}

impl Clone for Json {
    fn clone(&self) -> (copy: Json)
        ensures
            copy@ == self@,
        decreases self,
    {
        match self {
            Json::Null => Json::Null,
            Json::Bool(b) => Json::Bool(*b),
            Json::Number(n) => Json::Number(n.clone()),
            Json::Str(s) => Json::Str(s.clone()),
            Json::Array(items) => {
                let mut copies: Vec<Json> = Vec::new();
                let mut i: usize = 0;
                while i < items.len()
                    invariant
                        self == Json::Array(*items),
                        i <= items@.len(),
                        items_model(copies@) == items_model(items@.take(i as int)),
                    decreases items@.len() - i,
                {
                    assert(decreases_to!(self => self->Array_0));
                    assert(decreases_to!(items => items@));
                    assert(decreases_to!(items@ => items@[i as int]));
                    let copy = items[i].clone();
                    let ghost before = copies@;
                    copies.push(copy);
                    assert(items_model(copies@) =~= items_model(before).push(copy@));
                    assert(items_model(items@.take(i + 1)) =~= items_model(
                        items@.take(i as int),
                    ).push(items@[i as int]@));
                    i = i + 1;
                }
                assert(items@.take(i as int) =~= items@);
                Json::Array(copies)
            },
            Json::Object(object) => {
                let mut copies: Vec<(String, Json)> = Vec::new();
                let mut i: usize = 0;
                while i < object.entries.len()
                    invariant
                        self == Json::Object(*object),
                        i <= object.entries@.len(),
                        entries_model(copies@) == entries_model(object.entries@.take(i as int)),
                    decreases object.entries@.len() - i,
                {
                    let entry = &object.entries[i];
                    let ghost entries = object.entries@;
                    assert(decreases_to!(self => self->Object_0));
                    assert(decreases_to!(object => object.entries));
                    assert(decreases_to!(object.entries => object.entries@));
                    assert(decreases_to!(entries => entries[i as int]));
                    assert(decreases_to!(entries[i as int] => entries[i as int].1));
                    let copy = (entry.0.clone(), entry.1.clone());
                    assert(entries.take(i + 1) =~= entries.take(i as int).push(entries[i as int]));
                    proof {
                        lemma_push_entry(entries.take(i as int), entries[i as int]);
                        lemma_push_entry(copies@, copy);
                    }
                    copies.push(copy);
                    i = i + 1;
                }
                assert(object.entries@.take(i as int) =~= object.entries@);
                Json::Object(Object { entries: copies })
            },
        }
    }
}

/// Whether an earlier entry has the key of the entry at a position.
fn is_repeated(entries: &Vec<(String, Json)>, at: usize) -> (yes: bool)
    requires
        at < entries@.len(),
    ensures
        !yes ==> forall|j: int|
            0 <= j < at ==> (#[trigger] entries@[j]).0@ != entries@[at as int].0@,
        yes ==> exists|j: int|
            0 <= j < at && (#[trigger] entries@[j]).0@ == entries@[at as int].0@,
{
    let mut i: usize = 0;
    while i < at
        invariant
            i <= at < entries@.len(),
            forall|j: int| 0 <= j < i ==> (#[trigger] entries@[j]).0@ != entries@[at as int].0@,
        decreases at - i,
    {
        if text_eq(entries[i].0.as_str(), entries[at].0.as_str()) {
            assert(entries@[i as int].0@ == entries@[at as int].0@);
            return true;
        }
        i = i + 1;
    }
    false
}

proof fn lemma_entry_counts(entries: Seq<(String, Json)>, at: int)
    requires
        0 <= at < entries.len(),
    ensures
        entries_model(entries).dom().contains(entries[at].0@),
        (forall|j: int| 0 <= j < at ==> (#[trigger] entries[j]).0@ != entries[at].0@)
            ==> entries_model(entries)[entries[at].0@] == json_model(entries[at].1),
    decreases entries.len(),
{
    if at > 0 {
        let rest = entries.drop_first();
        assert(rest[at - 1] == entries[at]);
        lemma_entry_counts(rest, at - 1);
        if forall|j: int| 0 <= j < at ==> (#[trigger] entries[j]).0@ != entries[at].0@ {
            assert(entries[0].0@ != entries[at].0@);
            assert forall|j: int| 0 <= j < at - 1 implies (#[trigger] rest[j]).0@ != rest[at
                - 1].0@ by {
                assert(rest[j] == entries[j + 1]);
            }
        }
    }
}

proof fn lemma_key_has_entry(entries: Seq<(String, Json)>, key: Seq<char>) -> (at: int)
    requires
        entries_model(entries).dom().contains(key),
    ensures
        0 <= at < entries.len(),
        entries[at].0@ == key,
        forall|j: int| 0 <= j < at ==> (#[trigger] entries[j]).0@ != key,
    decreases entries.len(),
{
    if entries[0].0@ == key {
        0
    } else {
        let rest = entries.drop_first();
        let k = lemma_key_has_entry(rest, key);
        assert(rest[k] == entries[k + 1]);
        assert forall|j: int| 0 <= j < k + 1 implies (#[trigger] entries[j]).0@ != key by {
            if j > 0 {
                assert(rest[j - 1] == entries[j]);
            }
        }
        k + 1
    }
}

/// Whether all the keys of an object are keys of another.
fn has_keys_of(object: &Object, other: &Object) -> (yes: bool)
    ensures
        yes == other@.dom().subset_of(object@.dom()),
{
    let mut i: usize = 0;
    while i < other.entries.len()
        invariant
            i <= other.entries@.len(),
            forall|j: int|
                0 <= j < i ==> object@.dom().contains((#[trigger] other.entries@[j]).0@),
        decreases other.entries@.len() - i,
    {
        if object.get(other.entries[i].0.as_str()).is_none() {
            proof {
                lemma_entry_counts(other.entries@, i as int);
            }
            return false;
        }
        i = i + 1;
    }
    assert forall|key: Seq<char>| other@.dom().contains(key) implies object@.dom().contains(
        key,
    ) by {
        let at = lemma_key_has_entry(other.entries@, key);
    }
    true
}

/// Whether two values are equal.
pub fn json_same(a: &Json, b: &Json) -> (same: bool)
    ensures
        same == json_equal(a@, b@),
    decreases a,
{
    match (a, b) {
        (Json::Null, Json::Null) => true,
        (Json::Bool(x), Json::Bool(y)) => *x == *y,
        (Json::Number(x), Json::Number(y)) => number_eq(x, y),
        (Json::Str(x), Json::Str(y)) => text_eq(x.as_str(), y.as_str()),
        (Json::Array(x), Json::Array(y)) => {
            if x.len() != y.len() {
                return false;
            }
            let ghost xs = items_model(x@);
            let ghost ys = items_model(y@);
            let mut i: usize = 0;
            while i < x.len()
                invariant
                    a == Json::Array(*x),
                    b == Json::Array(*y),
                    xs == items_model(x@),
                    ys == items_model(y@),
                    x@.len() == y@.len(),
                    i <= x@.len(),
                    forall|j: int| 0 <= j < i ==> json_equal(#[trigger] xs[j], ys[j]),
                decreases x@.len() - i,
            {
                assert(decreases_to!(a => a->Array_0));
                assert(decreases_to!(x => x@));
                assert(decreases_to!(x@ => x@[i as int]));
                assert(xs[i as int] == x@[i as int]@);
                if !json_same(&x[i], &y[i]) {
                    assert(!json_equal(xs[i as int], ys[i as int]));
                    return false;
                }
                i = i + 1;
            }
            true
        },
        (Json::Object(x), Json::Object(y)) => {
            if !has_keys_of(x, y) {
                return false;
            }
            let ghost entries = x.entries@;
            let mut i: usize = 0;
            while i < x.entries.len()
                invariant
                    a == Json::Object(*x),
                    b == Json::Object(*y),
                    y@.dom().subset_of(x@.dom()),
                    entries == x.entries@,
                    i <= entries.len(),
                    forall|j: int|
                        0 <= j < i && (forall|k: int|
                            0 <= k < j ==> (#[trigger] entries[k]).0@ != entries[j].0@) ==> {
                            &&& y@.dom().contains((#[trigger] entries[j]).0@)
                            &&& json_equal(json_model(entries[j].1), y@[entries[j].0@])
                        },
                decreases entries.len() - i,
            {
                let entry = &x.entries[i];
                proof {
                    lemma_entry_counts(entries, i as int);
                }
                if !is_repeated(&x.entries, i) {
                    match y.get(entry.0.as_str()) {
                        None => {
                            return false;
                        },
                        Some(value) => {
                            assert(decreases_to!(a => a->Object_0));
                            assert(decreases_to!(x => x.entries));
                            assert(decreases_to!(x.entries => x.entries@));
                            assert(decreases_to!(entries => entries[i as int]));
                            assert(decreases_to!(entries[i as int] => entries[i as int].1));
                            if !json_same(&entry.1, value) {
                                assert(!json_equal(x@[entry.0@], y@[entry.0@]));
                                return false;
                            }
                        },
                    }
                }
                i = i + 1;
            }
            assert forall|key: Seq<char>| #[trigger] x@.dom().contains(key) implies y@.dom().contains(
                key,
            ) && json_equal(x@[key], y@[key]) by {
                let at = lemma_key_has_entry(entries, key);
                lemma_entry_counts(entries, at);
            }
            assert(x@.dom() =~= y@.dom());
            true
        },
        _ => false,
    }
}

impl PartialEq for Json {
    fn eq(&self, other: &Json) -> (same: bool) {
        json_same(self, other)
    }
}

impl vstd::std_specs::cmp::PartialEqSpecImpl for Json {
    open spec fn obeys_eq_spec() -> bool {
        true
    }

    open spec fn eq_spec(&self, other: &Json) -> bool {
        json_equal(self@, other@)
    }
}

/// The member of an object under a key is what the object has there; nothing else
/// has members, and a missing member counts as null. Texts and arrays are read as
/// such and as nothing else, and an integer is read where it fits.
pub proof fn members_are_read_as_they_are(
    members: Map<Seq<char>, JsonView>,
    key: Seq<char>,
    value: JsonView,
    n: int,
)
    ensures
        members.dom().contains(key) ==> JsonView::Object(members).get(key) == Some(members[key])
            && JsonView::Object(members).field(key) == members[key],
        !members.dom().contains(key) ==> JsonView::Object(members).get(key) is None
            && JsonView::Object(members).field(key) == JsonView::Null,
        value !is Object ==> value.get(key) is None && value.field(key) == JsonView::Null,
        match value {
            JsonView::Str(s) => value.as_str() == Some(s),
            _ => value.as_str() is None,
        },
        match value {
            JsonView::Array(items) => value.as_array() == Some(items),
            _ => value.as_array() is None,
        },
        value !is Number ==> value.as_u64() is None && value.as_i64() is None,
        0 <= n < 0x1_0000_0000_0000_0000 ==> JsonView::Number(NumberView::Integer(n)).as_u64()
            == Some(n as u64),
        !(0 <= n < 0x1_0000_0000_0000_0000) ==> JsonView::Number(
            NumberView::Integer(n),
        ).as_u64() is None,
        -0x8000_0000_0000_0000 <= n < 0x8000_0000_0000_0000 ==> JsonView::Number(
            NumberView::Integer(n),
        ).as_i64() == Some(n as i64),
        !(-0x8000_0000_0000_0000 <= n < 0x8000_0000_0000_0000) ==> JsonView::Number(
            NumberView::Integer(n),
        ).as_i64() is None,
        value.str_at(key) == value.field(key).as_str(),
        value.array_at(key) == value.field(key).as_array(),
{
}

/// Of the entries of an object with one key the first one counts.
pub proof fn first_entry_counts(entries: Seq<(String, Json)>, at: int)
    requires
        0 <= at < entries.len(),
        forall|j: int| 0 <= j < at ==> (#[trigger] entries[j]).0@ != entries[at].0@,
    ensures
        entries_model(entries).dom().contains(entries[at].0@),
        entries_model(entries)[entries[at].0@] == entries[at].1@,
{
    lemma_entry_counts(entries, at);
}

} // verus!
