//! JSON values as plain data.
use vstd::prelude::*;

use crate::letters::{precedes, precedes_total, precedes_transitive, text_precedes};
use crate::numeral::{decimal, decimal_of, decimal_reads_back, read_unsigned, NumberError};
use crate::text::{chars_of, lemma_views_push, opt_view, same, text_between, views};

verus! {

/// A JSON value. An object that is built member by member keeps them in the
/// order of their keys, each key once.
pub enum Json {
    Null,
    Bool(bool),
    Number(JsonNumber),
    Text(String),
    Array(Vec<Json>),
    Object(Vec<(String, Json)>),
}

/// A JSON number: its text, and its value where it is an integer from 0 to
/// `u64::MAX` written without a fraction or an exponent.
pub struct JsonNumber {
    pub unsigned: Option<u64>,
    pub text: String,
}

/// What a JSON value holds.
pub enum JsonView {
    Null,
    Bool(bool),
    Number(Option<u64>, Seq<char>),
    Text(Seq<char>),
    Array(Seq<JsonView>),
    Object(Seq<(Seq<char>, JsonView)>),
}

impl View for Json {
    type V = JsonView;

    open spec fn view(&self) -> JsonView
        decreases self,
    {
        match self {
            Json::Null => JsonView::Null,
            Json::Bool(b) => JsonView::Bool(*b),
            Json::Number(n) => JsonView::Number(n.unsigned, n.text@),
            Json::Text(s) => JsonView::Text(s@),
            Json::Array(items) => JsonView::Array(
                Seq::new(
                    items@.len(),
                    |i: int|
                        if 0 <= i < items@.len() {
                            items@[i].view()
                        } else {
                            JsonView::Null
                        },
                ),
            ),
            Json::Object(members) => JsonView::Object(
                Seq::new(
                    members@.len(),
                    |i: int|
                        if 0 <= i < members@.len() {
                            (members@[i].0@, members@[i].1.view())
                        } else {
                            (Seq::empty(), JsonView::Null)
                        },
                ),
            ),
        }
    }
}

/// The views of the members of an object.
pub open spec fn member_views(members: Seq<(String, Json)>) -> Seq<(Seq<char>, JsonView)> {
    members.map_values(|m: (String, Json)| (m.0@, m.1@))
}

/// The views of the items of an array.
pub open spec fn item_views(items: Seq<Json>) -> Seq<JsonView> {
    items.map_values(|v: Json| v@)
}

/// The view of an object lists the views of its members.
pub proof fn lemma_object_view(members: Vec<(String, Json)>)
    ensures
        Json::Object(members)@ == JsonView::Object(member_views(members@)),
{
    reveal_with_fuel(<Json as View>::view, 2);
    assert(Json::Object(members)@->Object_0 =~= member_views(members@));
}

/// The view of an array lists the views of its items.
pub proof fn lemma_array_view(items: Vec<Json>)
    ensures
        Json::Array(items)@ == JsonView::Array(item_views(items@)),
{
    reveal_with_fuel(<Json as View>::view, 2);
    assert(Json::Array(items)@->Array_0 =~= item_views(items@));
}

/// The value of the first member with the given key.
pub open spec fn lookup(members: Seq<(Seq<char>, JsonView)>, key: Seq<char>) -> Option<JsonView>
    decreases members.len(),
{
    if members.len() == 0 {
        None
    } else if members[0].0 == key {
        Some(members[0].1)
    } else {
        lookup(members.subrange(1, members.len() as int), key)
    }
}

/// Members in the order of their keys with one more, or with a new value for the
/// one with that key.
pub open spec fn insert_member(
    members: Seq<(Seq<char>, JsonView)>,
    key: Seq<char>,
    value: JsonView,
) -> Seq<(Seq<char>, JsonView)>
    decreases members.len(),
{
    if members.len() == 0 {
        seq![(key, value)]
    } else if members[0].0 == key {
        members.update(0, (key, value))
    } else if precedes(key, members[0].0) {
        seq![(key, value)] + members
    } else {
        seq![members[0]] + insert_member(members.subrange(1, members.len() as int), key, value)
    }
}

/// What a member is set to is what it is found to be, and no other member is
/// touched.
pub proof fn inserted_member_is_found(
    members: Seq<(Seq<char>, JsonView)>,
    key: Seq<char>,
    value: JsonView,
    other: Seq<char>,
)
    ensures
        lookup(insert_member(members, key, value), key) == Some(value),
        other != key ==> lookup(insert_member(members, key, value), other) == lookup(
            members,
            other,
        ),
    decreases members.len(),
{
    reveal_with_fuel(lookup, 2);
    let out = insert_member(members, key, value);
    if members.len() == 0 {
        assert(out.subrange(1, 1) =~= members);
    } else if members[0].0 == key {
        assert(out.subrange(1, out.len() as int) =~= members.subrange(1, members.len() as int));
    } else if precedes(key, members[0].0) {
        assert(out.subrange(1, out.len() as int) =~= members);
    } else {
        let tail = members.subrange(1, members.len() as int);
        inserted_member_is_found(tail, key, value, other);
        assert(out.subrange(1, out.len() as int) =~= insert_member(tail, key, value));
    }
}

/// What a member of an object is set to is what it is found to be, as a value, as a
/// text and as a number; and no other member is touched.
pub proof fn set_members_are_found(v: JsonView, key: Seq<char>, value: JsonView, other: Seq<char>)
    requires
        v is Object,
    ensures
        v.with(key, value) is Object,
        v.with(key, value).get(key) == Some(value),
        value matches JsonView::Text(s) ==> v.with(key, value).text_at(key) == Some(s),
        !(value is Text) ==> v.with(key, value).text_at(key) is None,
        value matches JsonView::Number(n, _) ==> v.with(key, value).number_at(key) == n,
        !(value is Number) ==> v.with(key, value).number_at(key) is None,
        other != key ==> v.with(key, value).get(other) == v.get(other) && v.with(
            key,
            value,
        ).text_at(other) == v.text_at(other) && v.with(key, value).number_at(other)
            == v.number_at(other),
        no_members().get(key) is None,
{
    inserted_member_is_found(v->Object_0, key, value, other);
}

/// A number is read back as the number that it was made of.
pub proof fn numbers_are_read_back(n: nat)
    requires
        n <= u64::MAX,
    ensures
        number_view(n).as_u64() == Some(n as u64),
        number_view(n) matches JsonView::Number(_, text) && read_unsigned(text, u64::MAX as nat)
            == Ok::<nat, NumberError>(n),
{
    decimal_reads_back(n, u64::MAX as nat);
}

impl JsonView {
    /// The member of an object; nothing where the value is no object.
    pub open spec fn get(self, key: Seq<char>) -> Option<JsonView> {
        match self {
            JsonView::Object(members) => lookup(members, key),
            _ => None,
        }
    }

    /// The text, where the value is one.
    pub open spec fn as_str(self) -> Option<Seq<char>> {
        match self {
            JsonView::Text(s) => Some(s),
            _ => None,
        }
    }

    /// The number, where the value is an integer from 0 to `u64::MAX`.
    pub open spec fn as_u64(self) -> Option<u64> {
        match self {
            JsonView::Number(n, _) => n,
            _ => None,
        }
    }

    /// The truth value, where the value is one.
    pub open spec fn as_bool(self) -> Option<bool> {
        match self {
            JsonView::Bool(b) => Some(b),
            _ => None,
        }
    }

    /// An object with one more member, or a new value for the one with that key;
    /// any other value as it is.
    pub open spec fn with(self, key: Seq<char>, value: JsonView) -> JsonView {
        match self {
            JsonView::Object(members) => JsonView::Object(insert_member(members, key, value)),
            _ => self,
        }
    }

    /// An array with one more item at its end; any other value as it is.
    pub open spec fn and(self, item: JsonView) -> JsonView {
        match self {
            JsonView::Array(items) => JsonView::Array(items.push(item)),
            _ => self,
        }
    }

    /// The text of a member, where the value is an object with a text under the key.
    pub open spec fn text_at(self, key: Seq<char>) -> Option<Seq<char>> {
        match self.get(key) {
            Some(v) => v.as_str(),
            None => None,
        }
    }

    /// The number of a member.
    pub open spec fn number_at(self, key: Seq<char>) -> Option<u64> {
        match self.get(key) {
            Some(v) => v.as_u64(),
            None => None,
        }
    }
}

/// The empty object.
pub open spec fn no_members() -> JsonView {
    JsonView::Object(Seq::empty())
}

/// The empty array.
pub open spec fn no_items() -> JsonView {
    JsonView::Array(Seq::empty())
}

/// An optional text as JSON.
pub open spec fn opt_text_view(s: Option<Seq<char>>) -> JsonView {
    match s {
        Some(t) => JsonView::Text(t),
        None => JsonView::Null,
    }
}

/// An optional unsigned number as JSON.
pub open spec fn opt_number_view(n: Option<nat>) -> JsonView {
    match n {
        Some(k) => number_view(k),
        None => JsonView::Null,
    }
}

/// The view of an unsigned number as JSON.
pub open spec fn number_view(n: nat) -> JsonView {
    JsonView::Number(Some(n as u64), decimal(n))
}

fn add_member(members: &mut Vec<(String, Json)>, key: String, value: Json)
    ensures
        member_views(final(members)@) == insert_member(member_views(old(members)@), key@, value@),
{
    let ghost all = member_views(members@);
    let ghost new = (key@, value@);
    let mut i: usize = 0;
    assert(all.subrange(0, all.len() as int) =~= all);
    assert(all.take(0) + insert_member(all, key@, value@) =~= insert_member(all, key@, value@));
    while i < members.len() && !same(members[i].0.as_str(), key.as_str()) && !text_precedes(
        key.as_str(),
        members[i].0.as_str(),
    )
        invariant
            i <= members@.len(),
            members@ == old(members)@,
            all == member_views(members@),
            new == (key@, value@),
            insert_member(all, key@, value@) == all.take(i as int) + insert_member(
                all.subrange(i as int, all.len() as int),
                key@,
                value@,
            ),
        decreases members@.len() - i,
    {
        proof {
            let tail = all.subrange(i as int, all.len() as int);
            assert(tail[0] == all[i as int]);
            assert(tail.subrange(1, tail.len() as int) =~= all.subrange(i + 1, all.len() as int));
            let rest = insert_member(all.subrange(i + 1, all.len() as int), key@, value@);
            assert(all.take(i as int) + (seq![all[i as int]] + rest) =~= all.take(i + 1) + rest);
        }
        i += 1;
    }
    let ghost tail = all.subrange(i as int, all.len() as int);
    if i < members.len() && same(members[i].0.as_str(), key.as_str()) {
        proof {
            assert(tail[0] == all[i as int]);
            assert(all.take(i as int) + tail.update(0, new) =~= all.update(i as int, new));
            assert(member_views(members@.update(i as int, (key, value))) =~= all.update(
                i as int,
                new,
            ));
        }
        members.set(i, (key, value));
    } else {
        proof {
            if i < all.len() {
                assert(tail[0] == all[i as int]);
            }
            assert(all.take(i as int) + (seq![new] + tail) =~= all.insert(i as int, new));
            assert(seq![new] + tail =~= insert_member(tail, key@, value@));
            assert(member_views(members@.insert(i as int, (key, value))) =~= all.insert(
                i as int,
                new,
            ));
        }
        members.insert(i, (key, value));
    }
}

impl Json {
    /// A text value.
    pub fn text(s: &str) -> (r: Json)
        ensures
            r@ == JsonView::Text(s@),
    {
        Json::Text(s.to_owned())
    }

    /// An unsigned number.
    pub fn number(n: u64) -> (r: Json)
        ensures
            r@ == number_view(n as nat),
    {
        Json::Number(JsonNumber { unsigned: Some(n), text: decimal_of(n) })
    }

    /// The empty object.
    pub fn object() -> (r: Json)
        ensures
            r@ == no_members(),
    {
        let members: Vec<(String, Json)> = Vec::new();
        proof {
            lemma_object_view(members);
            assert(member_views(members@) =~= Seq::empty());
        }
        Json::Object(members)
    }

    /// The empty array.
    pub fn array() -> (r: Json)
        ensures
            r@ == no_items(),
    {
        let items: Vec<Json> = Vec::new();
        proof {
            lemma_array_view(items);
            assert(item_views(items@) =~= Seq::empty());
        }
        Json::Array(items)
    }

    /// An object with one more member, or a new value for the one with that key;
    /// any other value as it is.
    pub fn with(self, key: &str, value: Json) -> (r: Json)
        ensures
            r@ == self@.with(key@, value@),
    {
        match self {
            Json::Object(members) => {
                proof {
                    lemma_object_view(members);
                }
                let mut more = members;
                add_member(&mut more, key.to_owned(), value);
                proof {
                    lemma_object_view(more);
                }
                Json::Object(more)
            },
            other => other,
        }
    }

    /// An array with one more item at its end; any other value as it is.
    pub fn and(self, item: Json) -> (r: Json)
        ensures
            r@ == self@.and(item@),
    {
        match self {
            Json::Array(items) => {
                proof {
                    lemma_array_view(items);
                }
                let ghost before = item_views(items@);
                let ghost held = item@;
                let mut more = items;
                more.push(item);
                proof {
                    lemma_array_view(more);
                    assert(item_views(more@) =~= before.push(held));
                }
                Json::Array(more)
            },
            other => other,
        }
    }

    /// A copy of the value.
    pub fn copy(&self) -> (r: Json)
        ensures
            r@ == self@,
        decreases self@,
    {
        match self {
            Json::Null => Json::Null,
            Json::Bool(b) => Json::Bool(*b),
            Json::Number(n) => Json::Number(
                JsonNumber { unsigned: n.unsigned, text: n.text.clone() },
            ),
            Json::Text(s) => Json::Text(s.clone()),
            Json::Array(items) => {
                proof {
                    lemma_array_view(*items);
                }
                let ghost held = item_views(items@);
                let mut out: Vec<Json> = Vec::new();
                let mut i: usize = 0;
                while i < items.len()
                    invariant
                        i <= items@.len(),
                        held == item_views(items@),
                        self@ == JsonView::Array(held),
                        out@.len() == i,
                        forall|j: int| 0 <= j < i ==> (#[trigger] out@[j])@ == held[j],
                    decreases items@.len() - i,
                {
                    assert(held[i as int] == items@[i as int]@);
                    assert(self@->Array_0 == held);
                    assert(decreases_to!(self@ => self@->Array_0));
                    assert(decreases_to!(self@ => held[i as int]));
                    out.push(items[i].copy());
                    i += 1;
                }
                proof {
                    lemma_array_view(out);
                    assert(item_views(out@) =~= held);
                }
                Json::Array(out)
            },
            Json::Object(members) => {
                proof {
                    lemma_object_view(*members);
                }
                let ghost held = member_views(members@);
                let mut out: Vec<(String, Json)> = Vec::new();
                let mut i: usize = 0;
                while i < members.len()
                    invariant
                        i <= members@.len(),
                        held == member_views(members@),
                        self@ == JsonView::Object(held),
                        out@.len() == i,
                        forall|j: int|
                            0 <= j < i ==> held[j] == ((#[trigger] out@[j]).0@, out@[j].1@),
                    decreases members@.len() - i,
                {
                    assert(held[i as int] == (members@[i as int].0@, members@[i as int].1@));
                    assert(self@->Object_0 == held);
                    assert(decreases_to!(self@ => self@->Object_0));
                    assert(decreases_to!(self@ => held[i as int]));
                    assert(decreases_to!(self@ => held[i as int].1));
                    out.push((members[i].0.clone(), members[i].1.copy()));
                    i += 1;
                }
                proof {
                    lemma_object_view(out);
                    assert(member_views(out@) =~= held);
                }
                Json::Object(out)
            },
        }
    }

    /// An optional text.
    pub fn opt_text(s: &Option<String>) -> (r: Json)
        ensures
            r@ == opt_text_view(opt_view(*s)),
    {
        match s {
            Some(t) => Json::text(t.as_str()),
            None => Json::Null,
        }
    }

    /// An optional unsigned number.
    pub fn opt_number(n: Option<u64>) -> (r: Json)
        ensures
            r@ == opt_number_view(
                match n {
                    Some(k) => Some(k as nat),
                    None => None,
                },
            ),
    {
        match n {
            Some(k) => Json::number(k),
            None => Json::Null,
        }
    }

    /// The member of an object.
    pub fn get(&self, key: &str) -> (r: Option<&Json>)
        ensures
            match r {
                Some(v) => self@.get(key@) == Some(v@),
                None => self@.get(key@) is None,
            },
    {
        match self {
            Json::Object(members) => {
                let ghost all = self@->Object_0;
                proof {
                    lemma_object_view(*members);
                }
                let mut i: usize = 0;
                assert(all.subrange(0, all.len() as int) =~= all);
                while i < members.len()
                    invariant
                        i <= members@.len(),
                        all.len() == members@.len(),
                        self@ == JsonView::Object(all),
                        forall|j: int|
                            0 <= j < members@.len() ==> #[trigger] all[j] == (
                                members@[j].0@,
                                members@[j].1@,
                            ),
                        lookup(all, key@) == lookup(all.subrange(i as int, all.len() as int), key@),
                    decreases members@.len() - i,
                {
                    let ghost tail = all.subrange(i as int, all.len() as int);
                    assert(tail[0] == all[i as int]);
                    assert(tail.subrange(1, tail.len() as int) =~= all.subrange(
                        i + 1,
                        all.len() as int,
                    ));
                    if same(members[i].0.as_str(), key) {
                        return Some(&members[i].1);
                    }
                    i += 1;
                }
                None
            },
            _ => None,
        }
    }

    /// The text, where the value is one.
    pub fn as_str(&self) -> (r: Option<&String>)
        ensures
            match r {
                Some(s) => self@.as_str() == Some(s@),
                None => self@.as_str() is None,
            },
    {
        match self {
            Json::Text(s) => Some(s),
            _ => None,
        }
    }

    /// The number, where the value is an integer from 0 to `u64::MAX`.
    pub fn as_u64(&self) -> (r: Option<u64>)
        ensures
            r == self@.as_u64(),
    {
        match self {
            Json::Number(n) => n.unsigned,
            _ => None,
        }
    }

    /// The truth value, where the value is one.
    pub fn as_bool(&self) -> (r: Option<bool>)
        ensures
            r == self@.as_bool(),
    {
        match self {
            Json::Bool(b) => Some(*b),
            _ => None,
        }
    }

    /// The text of a member.
    pub fn text_at(&self, key: &str) -> (r: Option<&String>)
        ensures
            match r {
                Some(s) => self@.text_at(key@) == Some(s@),
                None => self@.text_at(key@) is None,
            },
    {
        match self.get(key) {
            Some(v) => v.as_str(),
            None => None,
        }
    }

    /// The number of a member.
    pub fn number_at(&self, key: &str) -> (r: Option<u64>)
        ensures
            r == self@.number_at(key@),
    {
        match self.get(key) {
            Some(v) => v.as_u64(),
            None => None,
        }
    }
}

// ---------------------------------------------------------------------------
// Reading JSON text

/// `serde_json::Value`, the parsed form of a JSON text.
#[verifier::external_type_specification]
#[verifier::external_body]
pub struct ExJsonValue(serde_json::Value);

/// What a `serde_json::Value` holds.
pub uninterp spec fn value_contents(v: serde_json::Value) -> JsonView;

/// What JSON text stands for; nothing where it is not one JSON value.
pub uninterp spec fn json_parsed(text: Seq<char>) -> Option<JsonView>;

/// One level of a `serde_json::Value`.
enum Layer {
    Null,
    Bool(bool),
    Number(JsonNumber),
    Text(String),
    Array(Vec<serde_json::Value>),
    Object(Vec<(String, serde_json::Value)>),
}

/// `serde_json::from_str` into a `serde_json::Value`: it succeeds on the texts
/// that are one JSON value, and what it holds is a function of the text, which
/// is named here.
#[verifier::external_body]
fn parse_value(text: &str) -> (r: Option<serde_json::Value>)
    ensures
        match r {
            Some(v) => json_parsed(text@) == Some(value_contents(v)),
            None => json_parsed(text@) is None,
        },
{
    serde_json::from_str::<serde_json::Value>(text).ok()
}

/// Takes a `serde_json::Value` apart: its variant and the fields of it, a
/// number by `as_u64` and by its text, an object as its keys and values.
#[verifier::external_body]
fn open_value(value: serde_json::Value) -> (r: Layer)
    ensures
        match r {
            Layer::Null => value_contents(value) == JsonView::Null,
            Layer::Bool(b) => value_contents(value) == JsonView::Bool(b),
            Layer::Number(n) => value_contents(value) == JsonView::Number(n.unsigned, n.text@),
            Layer::Text(s) => value_contents(value) == JsonView::Text(s@),
            Layer::Array(items) => value_contents(value) == JsonView::Array(
                items@.map_values(|v: serde_json::Value| value_contents(v)),
            ),
            Layer::Object(members) => value_contents(value) == JsonView::Object(
                members@.map_values(|m: (String, serde_json::Value)| (m.0@, value_contents(m.1))),
            ),
        },
{
    match value {
        serde_json::Value::Null => Layer::Null,
        serde_json::Value::Bool(b) => Layer::Bool(b),
        serde_json::Value::Number(n) => Layer::Number(
            JsonNumber { unsigned: n.as_u64(), text: n.to_string() },
        ),
        serde_json::Value::String(s) => Layer::Text(s),
        serde_json::Value::Array(items) => Layer::Array(items),
        serde_json::Value::Object(members) => Layer::Object(members.into_iter().collect()),
    }
}

/// A `serde_json::Value` as plain data.
pub fn plain(value: serde_json::Value) -> (r: Json)
    ensures
        r@ == value_contents(value),
    decreases value_contents(value),
{
    let ghost whole = value_contents(value);
    match open_value(value) {
        Layer::Null => Json::Null,
        Layer::Bool(b) => Json::Bool(b),
        Layer::Number(n) => Json::Number(n),
        Layer::Text(s) => Json::Text(s),
        Layer::Array(items) => {
            let ghost source = items@;
            let ghost held = source.map_values(|v: serde_json::Value| value_contents(v));
            let mut out: Vec<Json> = Vec::new();
            for item in it: items
                invariant
                    it.seq() == source,
                    whole == value_contents(value),
                    whole == JsonView::Array(held),
                    held == source.map_values(|v: serde_json::Value| value_contents(v)),
                    out@.len() == it.index(),
                    forall|j: int| 0 <= j < out@.len() ==> (#[trigger] out@[j])@ == held[j],
            {
                assert(held[it.index() as int] == value_contents(item));
                assert(whole->Array_0 == held);
                assert(decreases_to!(whole => whole->Array_0));
                assert(decreases_to!(whole => held[it.index() as int]));
                out.push(plain(item));
            }
            proof {
                lemma_array_view(out);
                assert(item_views(out@) =~= held);
            }
            Json::Array(out)
        },
        Layer::Object(members) => {
            let ghost source = members@;
            let ghost held = source.map_values(
                |m: (String, serde_json::Value)| (m.0@, value_contents(m.1)),
            );
            let mut out: Vec<(String, Json)> = Vec::new();
            for member in it: members
                invariant
                    it.seq() == source,
                    whole == value_contents(value),
                    whole == JsonView::Object(held),
                    held == source.map_values(
                        |m: (String, serde_json::Value)| (m.0@, value_contents(m.1)),
                    ),
                    out@.len() == it.index(),
                    forall|j: int|
                        0 <= j < out@.len() ==> held[j] == ((#[trigger] out@[j]).0@, out@[j].1@),
            {
                assert(held[it.index() as int] == (member.0@, value_contents(member.1)));
                assert(whole->Object_0 == held);
                assert(decreases_to!(whole => whole->Object_0));
                assert(decreases_to!(whole => held[it.index() as int]));
                assert(decreases_to!(whole => held[it.index() as int].1));
                out.push((member.0, plain(member.1)));
            }
            proof {
                lemma_object_view(out);
                assert(member_views(out@) =~= held);
            }
            Json::Object(out)
        },
    }
}

/// Reads a text as one JSON value.
pub fn parse_json(text: &str) -> (r: Option<Json>)
    ensures
        match r {
            Some(j) => json_parsed(text@) == Some(j@),
            None => json_parsed(text@) is None,
        },
{
    match parse_value(text) {
        Some(v) => Some(plain(v)),
        None => None,
    }
}

// ---------------------------------------------------------------------------
// Members that stand in a text twice

/// What the front of a JSON text says of the names of members.
#[verifier::ext_equal]
pub struct NameScan {
    /// How many braces and brackets are open.
    pub depth: nat,
    /// Whether the front ends within a text in quotation marks.
    pub quoted: bool,
    /// Whether the front ends, within such a text, behind a backslash that stands
    /// for what comes next.
    pub escaped: bool,
    /// Where the last such text begins, and where it ends.
    pub from: int,
    pub to: int,
    /// The names so far of the members that stand directly at the level.
    pub names: Seq<Seq<char>>,
    /// Whether one of these stood there before.
    pub repeated: bool,
}

/// The name that a text in quotation marks stands for.
pub open spec fn member_name(quoted: Seq<char>) -> Option<Seq<char>> {
    match json_parsed(quoted) {
        Some(v) => v.as_str(),
        None => None,
    }
}

/// What the first `n` characters of a JSON text say of the members that have one of
/// the known names, in the objects that so many braces and brackets stand around.
pub open spec fn name_scan(text: Seq<char>, level: nat, known: Seq<Seq<char>>, n: int) -> NameScan
    decreases n,
{
    if n <= 0 {
        NameScan {
            depth: 0,
            quoted: false,
            escaped: false,
            from: 0,
            to: 0,
            names: Seq::empty(),
            repeated: false,
        }
    } else {
        let s = name_scan(text, level, known, n - 1);
        let c = text[n - 1];
        if s.quoted {
            if s.escaped {
                NameScan { escaped: false, ..s }
            } else if c == '\\' {
                NameScan { escaped: true, ..s }
            } else if c == '"' {
                NameScan { quoted: false, to: n, ..s }
            } else {
                s
            }
        } else if c == '"' {
            NameScan { quoted: true, from: n - 1, ..s }
        } else if c == '{' || c == '[' {
            if s.depth + 1 == level {
                NameScan { depth: s.depth + 1, names: Seq::empty(), ..s }
            } else {
                NameScan { depth: s.depth + 1, ..s }
            }
        } else if c == '}' || c == ']' {
            NameScan {
                depth: if s.depth > 0 {
                    (s.depth - 1) as nat
                } else {
                    0
                },
                ..s
            }
        } else if c == ':' && s.depth == level && s.from <= s.to {
            match member_name(text.subrange(s.from, s.to)) {
                Some(name) => if known.contains(name) {
                    NameScan {
                        names: s.names.push(name),
                        repeated: s.repeated || s.names.contains(name),
                        ..s
                    }
                } else {
                    s
                },
                None => s,
            }
        } else {
            s
        }
    }
}

/// In an object of a JSON text, around which so many braces and brackets stand with
/// its own, a member of one of the known names stands twice.
pub open spec fn repeats_member(text: Seq<char>, level: nat, known: Seq<Seq<char>>) -> bool {
    name_scan(text, level, known, text.len() as int).repeated
}

fn holds_text(all: &Vec<String>, text: &str) -> (r: bool)
    ensures
        r == views(all@).contains(text@),
{
    let ghost v = views(all@);
    let mut i: usize = 0;
    while i < all.len()
        invariant
            i <= all@.len(),
            v == views(all@),
            forall|j: int| 0 <= j < i ==> v[j] != text@,
        decreases all@.len() - i,
    {
        if same(all[i].as_str(), text) {
            assert(v[i as int] == text@);
            return true;
        }
        i += 1;
    }
    false
}

/// Whether, in an object of a JSON text around which so many braces and brackets
/// stand with its own, a member of one of the known names stands twice.
pub fn has_repeated_member(text: &str, level: usize, known: &Vec<String>) -> (r: bool)
    ensures
        r == repeats_member(text@, level as nat, views(known@)),
{
    let v = chars_of(text);
    let n: usize = v.len();
    let mut depth: usize = 0;
    let mut quoted = false;
    let mut escaped = false;
    let mut from: usize = 0;
    let mut to: usize = 0;
    let mut names: Vec<String> = Vec::new();
    let mut repeated = false;
    let mut i: usize = 0;
    assert(views(names@) =~= Seq::<Seq<char>>::empty());
    while i < n
        invariant
            i <= n,
            n == v@.len(),
            v@ == text@,
            depth <= i,
            from <= i,
            to <= i,
            (NameScan {
                depth: depth as nat,
                quoted,
                escaped,
                from: from as int,
                to: to as int,
                names: views(names@),
                repeated,
            }) == name_scan(text@, level as nat, views(known@), i as int),
        decreases n - i,
    {
        let c: char = v[i];
        if quoted {
            if escaped {
                escaped = false;
            } else if c == '\\' {
                escaped = true;
            } else if c == '"' {
                quoted = false;
                to = i + 1;
            }
        } else if c == '"' {
            quoted = true;
            from = i;
        } else if c == '{' || c == '[' {
            depth = depth + 1;
            if depth == level {
                names = Vec::new();
                assert(views(names@) =~= Seq::<Seq<char>>::empty());
            }
        } else if c == '}' || c == ']' {
            if depth > 0 {
                depth = depth - 1;
            }
        } else if c == ':' && depth == level && from <= to {
            match parse_json(text_between(&v, from, to).as_str()) {
                Some(Json::Text(name)) => {
                    if holds_text(known, name.as_str()) {
                        if holds_text(&names, name.as_str()) {
                            repeated = true;
                        }
                        proof {
                            lemma_views_push(names@, name);
                        }
                        names.push(name);
                    }
                },
                _ => {},
            }
        }
        i += 1;
    }
    repeated
}

// ---------------------------------------------------------------------------
// Writing JSON text

/// The members of a list put into an object one after the other.
pub open spec fn inserted(members: Seq<(Seq<char>, JsonView)>) -> Seq<(Seq<char>, JsonView)>
    decreases members.len(),
{
    if members.len() == 0 {
        Seq::empty()
    } else {
        insert_member(inserted(members.drop_last()), members.last().0, members.last().1)
    }
}

/// JSON text for a value, without white space.
pub uninterp spec fn json_text(v: JsonView) -> Option<Seq<char>>;

/// JSON text for a value, with line breaks and indentation.
pub uninterp spec fn json_pretty(v: JsonView) -> Option<Seq<char>>;

/// Puts a `serde_json::Value` together: from the variant and its fields, a
/// number from a `u64`, an object by collecting the members in their order into
/// a `serde_json::Map`, which keeps them by key and takes the last of equal keys.
#[verifier::external_body]
fn close_value(layer: Layer) -> (r: serde_json::Value)
    requires
        layer matches Layer::Number(n) ==> n.unsigned is Some,
    ensures
        match layer {
            Layer::Null => value_contents(r) == JsonView::Null,
            Layer::Bool(b) => value_contents(r) == JsonView::Bool(b),
            Layer::Number(n) => value_contents(r) == number_view(n.unsigned.unwrap() as nat),
            Layer::Text(s) => value_contents(r) == JsonView::Text(s@),
            Layer::Array(items) => value_contents(r) == JsonView::Array(
                items@.map_values(|v: serde_json::Value| value_contents(v)),
            ),
            Layer::Object(members) => value_contents(r) == JsonView::Object(
                inserted(
                    members@.map_values(
                        |m: (String, serde_json::Value)| (m.0@, value_contents(m.1)),
                    ),
                ),
            ),
        },
{
    match layer {
        Layer::Null => serde_json::Value::Null,
        Layer::Bool(b) => serde_json::Value::Bool(b),
        Layer::Number(n) => serde_json::Value::from(n.unsigned.unwrap_or_default()),
        Layer::Text(s) => serde_json::Value::String(s),
        Layer::Array(items) => serde_json::Value::Array(items),
        Layer::Object(members) => serde_json::Value::Object(members.into_iter().collect()),
    }
}

/// A text, a truth value, a `u64` or null.
pub open spec fn is_scalar(v: JsonView) -> bool {
    match v {
        JsonView::Null => true,
        JsonView::Bool(_) => true,
        JsonView::Number(n, _) => n is Some,
        JsonView::Text(_) => true,
        _ => false,
    }
}

/// An object of scalars.
pub open spec fn is_flat(v: JsonView) -> bool {
    v matches JsonView::Object(members) && forall|i: int|
        0 <= i < members.len() ==> is_scalar((#[trigger] members[i]).1)
}

/// No member of the object has a key that begins with a dollar sign. Such keys may
/// be marks by which `serde_json` itself passes values on.
pub open spec fn plain_keys(v: JsonView) -> bool {
    v matches JsonView::Object(members) && forall|i: int|
        0 <= i < members.len() ==> ((#[trigger] members[i]).0.len() > 0 ==> members[i].0[0] != '$')
}

/// A text on one line, in braces.
pub open spec fn one_line_object(s: Seq<char>) -> bool {
    s.len() >= 2 && s[0] == '{' && s.last() == '}' && !s.contains('\n') && !s.contains('\r')
}

/// `serde_json::to_string` of a `serde_json::Value`: a function of what the value
/// holds, which is named here. An object of scalars is written on one line, in
/// braces. Each of its members is written once, as a `serde_json::Map` holds it, so
/// no name stands there twice, and the text is read back as what was written. This
/// is claimed where no key begins with a dollar sign: an object under the key by
/// which `serde_json` marks raw text is read as what that text stands for.
#[verifier::external_body]
fn value_text(value: &serde_json::Value) -> (r: Result<String, serde_json::Error>)
    ensures
        match r {
            Ok(s) => json_text(value_contents(*value)) == Some(s@),
            Err(_) => json_text(value_contents(*value)) is None,
        },
        r matches Ok(s) ==> is_flat(value_contents(*value)) && plain_keys(value_contents(*value))
            ==> one_line_object(s@) && json_parsed(s@) == Some(value_contents(*value)) && forall|
            known: Seq<Seq<char>>,
        |
            !#[trigger] repeats_member(s@, 1, known),
{
    serde_json::to_string(value)
}

/// `serde_json::to_string_pretty` of a `serde_json::Value`: a function of what
/// the value holds, which is named here.
#[verifier::external_body]
fn value_pretty(value: &serde_json::Value) -> (r: Result<String, serde_json::Error>)
    ensures
        match r {
            Ok(s) => json_pretty(value_contents(*value)) == Some(s@),
            Err(_) => json_pretty(value_contents(*value)) is None,
        },
{
    serde_json::to_string_pretty(value)
}

/// A value as it is written: the members of each object in the order of their
/// keys, the last of equal keys; a number that is no `u64` as what its text
/// stands for, or null where that is nothing.
pub open spec fn settled(v: JsonView) -> JsonView
    decreases v,
{
    match v {
        JsonView::Null => JsonView::Null,
        JsonView::Bool(b) => JsonView::Bool(b),
        JsonView::Number(n, text) => match n {
            Some(k) => number_view(k as nat),
            None => match json_parsed(text) {
                Some(w) => w,
                None => JsonView::Null,
            },
        },
        JsonView::Text(s) => JsonView::Text(s),
        JsonView::Array(items) => JsonView::Array(
            Seq::new(
                items.len(),
                |i: int|
                    if 0 <= i < items.len() {
                        settled(items[i])
                    } else {
                        JsonView::Null
                    },
            ),
        ),
        JsonView::Object(members) => JsonView::Object(
            inserted(settled_members(members)),
        ),
    }
}

/// The members of an object with their values as they are written.
pub open spec fn settled_members(members: Seq<(Seq<char>, JsonView)>) -> Seq<
    (Seq<char>, JsonView),
>
    decreases members,
{
    Seq::new(
        members.len(),
        |i: int|
            if 0 <= i < members.len() {
                (members[i].0, settled(members[i].1))
            } else {
                (Seq::empty(), JsonView::Null)
            },
    )
}

/// Plain data as a `serde_json::Value`.
pub fn into_value(json: Json) -> (r: serde_json::Value)
    ensures
        value_contents(r) == settled(json@),
    decreases json@,
{
    match json {
        Json::Null => close_value(Layer::Null),
        Json::Bool(b) => close_value(Layer::Bool(b)),
        Json::Number(n) => {
            if n.unsigned.is_some() {
                close_value(Layer::Number(n))
            } else {
                match parse_value(n.text.as_str()) {
                    Some(v) => v,
                    None => close_value(Layer::Null),
                }
            }
        },
        Json::Text(s) => close_value(Layer::Text(s)),
        Json::Array(items) => {
            proof {
                lemma_array_view(items);
            }
            let ghost whole = json@;
            let ghost source = items@;
            let ghost held = item_views(source);
            let mut out: Vec<serde_json::Value> = Vec::new();
            for item in it: items
                invariant
                    it.seq() == source,
                    whole == json@,
                    whole == JsonView::Array(held),
                    held == item_views(source),
                    out@.len() == it.index(),
                    forall|j: int|
                        0 <= j < out@.len() ==> value_contents(#[trigger] out@[j]) == settled(held[j]),
            {
                assert(held[it.index() as int] == item@);
                assert(whole->Array_0 == held);
                assert(decreases_to!(whole => whole->Array_0));
                assert(decreases_to!(whole => held[it.index() as int]));
                out.push(into_value(item));
            }
            let r = close_value(Layer::Array(out));
            proof {
                reveal_with_fuel(settled, 2);
                assert(value_contents(r)->Array_0 =~= settled(JsonView::Array(held))->Array_0);
            }
            r
        },
        Json::Object(members) => {
            proof {
                lemma_object_view(members);
            }
            let ghost whole = json@;
            let ghost source = members@;
            let ghost held = member_views(source);
            let mut out: Vec<(String, serde_json::Value)> = Vec::new();
            for member in it: members
                invariant
                    it.seq() == source,
                    whole == json@,
                    whole == JsonView::Object(held),
                    held == member_views(source),
                    out@.len() == it.index(),
                    forall|j: int|
                        0 <= j < out@.len() ==> (#[trigger] out@[j]).0@ == held[j].0
                            && value_contents(out@[j].1) == settled(held[j].1),
            {
                assert(held[it.index() as int] == (member.0@, member.1@));
                assert(whole->Object_0 == held);
                assert(decreases_to!(whole => whole->Object_0));
                assert(decreases_to!(whole => held[it.index() as int]));
                assert(decreases_to!(whole => held[it.index() as int].1));
                out.push((member.0, into_value(member.1)));
            }
            let ghost pairs = out@.map_values(
                |m: (String, serde_json::Value)| (m.0@, value_contents(m.1)),
            );
            let r = close_value(Layer::Object(out));
            proof {
                reveal_with_fuel(settled, 2);
                reveal_with_fuel(settled_members, 2);
                assert(pairs =~= settled_members(held));
            }
            r
        },
    }
}

/// Writes a value as JSON text without white space. An object of scalars, none of
/// whose keys begins with a dollar sign, is written on one line, names no member
/// twice and is read back as what was written.
pub fn write_json(json: Json) -> (r: Result<String, serde_json::Error>)
    ensures
        match r {
            Ok(s) => json_text(settled(json@)) == Some(s@),
            Err(_) => json_text(settled(json@)) is None,
        },
        r matches Ok(s) ==> is_flat(settled(json@)) && plain_keys(settled(json@))
            ==> one_line_object(s@) && json_parsed(s@) == Some(settled(json@)) && forall|
            known: Seq<Seq<char>>,
        |
            !#[trigger] repeats_member(s@, 1, known),
{
    value_text(&into_value(json))
}

/// Writes a value as JSON text with line breaks and indentation.
pub fn write_json_pretty(json: Json) -> (r: Result<String, serde_json::Error>)
    ensures
        match r {
            Ok(s) => json_pretty(settled(json@)) == Some(s@),
            Err(_) => json_pretty(settled(json@)) is None,
        },
{
    value_pretty(&into_value(json))
}

// ---------------------------------------------------------------------------
// Objects in order

/// The keys stand in strictly ascending order.
pub open spec fn ascending_keys(members: Seq<(Seq<char>, JsonView)>) -> bool {
    forall|i: int, j: int|
        0 <= i < j < members.len() ==> precedes(#[trigger] members[i].0, #[trigger] members[j].0)
}

/// Adding a member keeps the keys in order.
pub proof fn insert_keeps_order(
    members: Seq<(Seq<char>, JsonView)>,
    key: Seq<char>,
    value: JsonView,
)
    requires
        ascending_keys(members),
    ensures
        ascending_keys(insert_member(members, key, value)),
        forall|i: int|
            0 <= i < insert_member(members, key, value).len() ==> (#[trigger] insert_member(
                members,
                key,
                value,
            )[i]) == (key, value) || members.contains(insert_member(members, key, value)[i]),
    decreases members.len(),
{
    let out = insert_member(members, key, value);
    let new = (key, value);
    if members.len() == 0 {
    } else if members[0].0 == key {
        assert forall|i: int, j: int| 0 <= i < j < out.len() implies precedes(
            #[trigger] out[i].0,
            #[trigger] out[j].0,
        ) by {
            assert(out[i].0 == members[i].0 && out[j].0 == members[j].0);
        }
        assert forall|i: int| 0 <= i < out.len() implies (#[trigger] out[i]) == new
            || members.contains(out[i]) by {
            if i > 0 {
                assert(out[i] == members[i]);
            }
        }
    } else if precedes(key, members[0].0) {
        assert forall|i: int, j: int| 0 <= i < j < out.len() implies precedes(
            #[trigger] out[i].0,
            #[trigger] out[j].0,
        ) by {
            assert(out[j] == members[j - 1]);
            if i == 0 {
                if j > 1 {
                    assert(precedes(members[0].0, members[j - 1].0));
                    precedes_transitive(key, members[0].0, members[j - 1].0);
                }
            } else {
                assert(out[i] == members[i - 1]);
            }
        }
        assert forall|i: int| 0 <= i < out.len() implies (#[trigger] out[i]) == new
            || members.contains(out[i]) by {
            if i > 0 {
                assert(out[i] == members[i - 1]);
            }
        }
    } else {
        let first = members[0];
        let tail = members.subrange(1, members.len() as int);
        assert(ascending_keys(tail)) by {
            assert forall|i: int, j: int| 0 <= i < j < tail.len() implies precedes(
                #[trigger] tail[i].0,
                #[trigger] tail[j].0,
            ) by {
                assert(tail[i] == members[i + 1] && tail[j] == members[j + 1]);
            }
        }
        insert_keeps_order(tail, key, value);
        let rest = insert_member(tail, key, value);
        precedes_total(first.0, key);
        assert forall|i: int| 0 <= i < rest.len() implies precedes(
            first.0,
            #[trigger] rest[i].0,
        ) by {
            if rest[i] != new {
                let k = choose|k: int| 0 <= k < tail.len() && tail[k] == rest[i];
                assert(tail[k] == members[k + 1]);
            }
        }
        assert forall|i: int, j: int| 0 <= i < j < out.len() implies precedes(
            #[trigger] out[i].0,
            #[trigger] out[j].0,
        ) by {
            assert(out[j] == rest[j - 1]);
            if i > 0 {
                assert(out[i] == rest[i - 1]);
            }
        }
        assert forall|i: int| 0 <= i < out.len() implies (#[trigger] out[i]) == new
            || members.contains(out[i]) by {
            if i == 0 {
                assert(out[0] == members[0]);
            } else {
                assert(out[i] == rest[i - 1]);
                if rest[i - 1] != new {
                    let k = choose|k: int| 0 <= k < tail.len() && tail[k] == rest[i - 1];
                    assert(members[k + 1] == out[i]);
                }
            }
        }
    }
}

proof fn lemma_insert_last(members: Seq<(Seq<char>, JsonView)>, key: Seq<char>, value: JsonView)
    requires
        forall|i: int| 0 <= i < members.len() ==> precedes(#[trigger] members[i].0, key),
    ensures
        insert_member(members, key, value) == members.push((key, value)),
    decreases members.len(),
{
    if members.len() == 0 {
        assert(insert_member(members, key, value) =~= members.push((key, value)));
    } else {
        let tail = members.subrange(1, members.len() as int);
        precedes_total(members[0].0, key);
        assert forall|i: int| 0 <= i < tail.len() implies precedes(#[trigger] tail[i].0, key) by {
            assert(tail[i] == members[i + 1]);
        }
        lemma_insert_last(tail, key, value);
        assert(seq![members[0]] + tail.push((key, value)) =~= members.push((key, value)));
    }
}

proof fn lemma_inserted_in_order(members: Seq<(Seq<char>, JsonView)>)
    requires
        ascending_keys(members),
    ensures
        inserted(members) == members,
    decreases members.len(),
{
    if members.len() > 0 {
        let front = members.drop_last();
        assert(ascending_keys(front)) by {
            assert forall|i: int, j: int| 0 <= i < j < front.len() implies precedes(
                #[trigger] front[i].0,
                #[trigger] front[j].0,
            ) by {
                assert(front[i] == members[i] && front[j] == members[j]);
            }
        }
        lemma_inserted_in_order(front);
        assert forall|i: int| 0 <= i < front.len() implies precedes(
            #[trigger] front[i].0,
            members.last().0,
        ) by {
            assert(front[i] == members[i]);
        }
        lemma_insert_last(front, members.last().0, members.last().1);
        assert(front.push(members.last()) =~= members);
    } else {
        assert(inserted(members) =~= members);
    }
}

/// A scalar that is written as it is: a number by its decimal digits.
pub open spec fn is_plain_scalar(v: JsonView) -> bool {
    is_scalar(v) && (v matches JsonView::Number(n, text) ==> text == decimal(n.unwrap() as nat))
}

/// An object of plain scalars with its keys in order is written as it is.
pub proof fn ordered_scalars_are_settled(members: Seq<(Seq<char>, JsonView)>)
    requires
        ascending_keys(members),
        forall|i: int| 0 <= i < members.len() ==> is_plain_scalar((#[trigger] members[i]).1),
    ensures
        settled(JsonView::Object(members)) == JsonView::Object(members),
        is_flat(JsonView::Object(members)),
{
    reveal_with_fuel(settled, 2);
    reveal_with_fuel(settled_members, 2);
    lemma_inserted_in_order(members);
    assert(settled_members(members) =~= members);
}

/// What is written of a value is what it holds: a text, a truth value and null as they
/// are, a number by its value, a list item by item, and an object member by member.
pub proof fn written_values_keep_what_they_hold(
    s: Seq<char>,
    b: bool,
    n: u64,
    written: Seq<char>,
    items: Seq<JsonView>,
    members: Seq<(Seq<char>, JsonView)>,
    key: Seq<char>,
)
    requires
        ascending_keys(members),
    ensures
        settled(JsonView::Text(s)) == JsonView::Text(s),
        settled(JsonView::Bool(b)) == JsonView::Bool(b),
        settled(JsonView::Null) == JsonView::Null,
        settled(JsonView::Number(Some(n), written)).as_u64() == Some(n),
        settled(JsonView::Array(items)) matches JsonView::Array(out) && out.len() == items.len()
            && forall|i: int|
            0 <= i < items.len() ==> #[trigger] out[i] == settled(items[i]),
        settled(JsonView::Object(members)).get(key) == match JsonView::Object(members).get(key) {
            Some(v) => Some(settled(v)),
            None => None,
        },
{
    reveal_with_fuel(settled, 2);
    reveal_with_fuel(settled_members, 2);
    let out = settled_members(members);
    assert(ascending_keys(out)) by {
        assert forall|i: int, j: int| 0 <= i < j < out.len() implies precedes(
            #[trigger] out[i].0,
            #[trigger] out[j].0,
        ) by {
            assert(precedes(members[i].0, members[j].0));
        }
    }
    lemma_inserted_in_order(out);
    lemma_settled_lookup(members, key);
}

proof fn lemma_settled_lookup(members: Seq<(Seq<char>, JsonView)>, key: Seq<char>)
    ensures
        lookup(settled_members(members), key) == match lookup(members, key) {
            Some(v) => Some(settled(v)),
            None => None,
        },
    decreases members.len(),
{
    reveal_with_fuel(settled_members, 2);
    if members.len() > 0 {
        let tail = members.subrange(1, members.len() as int);
        let out = settled_members(members);
        lemma_settled_lookup(tail, key);
        assert(out.subrange(1, out.len() as int) =~= settled_members(tail));
        assert(out[0].0 == members[0].0);
    }
}

} // verus!
