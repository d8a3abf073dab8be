//! JSON values: reading them, building them, and the text they stand for.

use vstd::prelude::*;

use serde_json::Value;

use crate::text::{same, text_lt, text_order_is_total, text_order_is_transitive};

verus! {

/// A JSON value. An object keeps its members in the order in which they were given.
#[derive(Debug, PartialEq)]
pub enum Json {
    Null,
    Flag(bool),
    /// A whole number that is not negative.
    Whole(u64),
    /// A whole number below zero.
    Negative(i64),
    /// Any other number, as its decimal text.
    Fraction(String),
    Text(String),
    List(Vec<Json>),
    Object(Vec<(String, Json)>),
}

/// [`Json`] as a mathematical value.
pub enum JsonV {
    Null,
    Flag(bool),
    Whole(u64),
    Negative(i64),
    Fraction(Seq<char>),
    Text(Seq<char>),
    List(Seq<JsonV>),
    Object(Seq<(Seq<char>, JsonV)>),
}

impl View for Json {
    type V = JsonV;

    open spec fn view(&self) -> JsonV {
        json_view(*self)
    }
}

pub open spec fn json_view(j: Json) -> JsonV
    decreases j,
{
    match j {
        Json::Null => JsonV::Null,
        Json::Flag(b) => JsonV::Flag(b),
        Json::Whole(n) => JsonV::Whole(n),
        Json::Negative(n) => JsonV::Negative(n),
        Json::Fraction(s) => JsonV::Fraction(s@),
        Json::Text(s) => JsonV::Text(s@),
        Json::List(items) => JsonV::List(item_views(items, items@.len())),
        Json::Object(members) => JsonV::Object(member_views(members, members@.len())),
    }
}

/// The first `n` items of a list.
pub open spec fn item_views(items: Vec<Json>, n: nat) -> Seq<JsonV>
    decreases items, n,
{
    if n == 0 || n > items@.len() {
        Seq::empty()
    } else {
        item_views(items, (n - 1) as nat).push(json_view(items@[n - 1]))
    }
}

/// The first `n` members of an object.
pub open spec fn member_views(members: Vec<(String, Json)>, n: nat) -> Seq<(Seq<char>, JsonV)>
    decreases members, n,
{
    if n == 0 || n > members@.len() {
        Seq::empty()
    } else {
        member_views(members, (n - 1) as nat).push(
            (members@[n - 1].0@, json_view(members@[n - 1].1)),
        )
    }
}

pub proof fn lemma_items(items: Vec<Json>, n: nat)
    requires
        n <= items@.len(),
    ensures
        item_views(items, n).len() == n,
        forall|i: int| 0 <= i < n ==> #[trigger] item_views(items, n)[i] == items@[i]@,
    decreases n,
{
    if n > 0 {
        lemma_items(items, (n - 1) as nat);
    }
}

pub proof fn lemma_members(members: Vec<(String, Json)>, n: nat)
    requires
        n <= members@.len(),
    ensures
        member_views(members, n).len() == n,
        forall|i: int|
            0 <= i < n ==> #[trigger] member_views(members, n)[i] == (
                members@[i].0@,
                members@[i].1@,
            ),
    decreases n,
{
    if n > 0 {
        lemma_members(members, (n - 1) as nat);
    }
}

impl JsonV {
    /// An object without members.
    pub open spec fn object() -> JsonV {
        JsonV::Object(Seq::empty())
    }

    /// An object with one more member.
    pub open spec fn with(self, key: Seq<char>, value: JsonV) -> JsonV {
        match self {
            JsonV::Object(members) => JsonV::Object(members.push((key, value))),
            _ => self,
        }
    }

    /// The first member of an object under a key.
    pub open spec fn field(self, key: Seq<char>) -> Option<JsonV> {
        match self {
            JsonV::Object(members) => member(members, key),
            _ => None,
        }
    }

    pub open spec fn text(self) -> Option<Seq<char>> {
        match self {
            JsonV::Text(s) => Some(s),
            _ => None,
        }
    }

    pub open spec fn flag(self) -> Option<bool> {
        match self {
            JsonV::Flag(b) => Some(b),
            _ => None,
        }
    }

    /// The number, if it is whole and not negative.
    pub open spec fn whole(self) -> Option<u64> {
        match self {
            JsonV::Whole(n) => Some(n),
            _ => None,
        }
    }

    /// The number, if it is whole and fits a signed word.
    pub open spec fn integer(self) -> Option<i64> {
        match self {
            JsonV::Whole(n) => if n <= i64::MAX {
                Some(n as i64)
            } else {
                None
            },
            JsonV::Negative(n) => Some(n),
            _ => None,
        }
    }
}

pub open spec fn member(members: Seq<(Seq<char>, JsonV)>, key: Seq<char>) -> Option<JsonV>
    decreases members.len(),
{
    if members.len() == 0 {
        None
    } else if members[0].0 == key {
        Some(members[0].1)
    } else {
        member(members.drop_first(), key)
    }
}

/// One more member is found only where none before it has its key.
pub proof fn lemma_member_push(
    members: Seq<(Seq<char>, JsonV)>,
    key: Seq<char>,
    value: JsonV,
    wanted: Seq<char>,
)
    ensures
        member(members.push((key, value)), wanted) == match member(members, wanted) {
            Some(v) => Some(v),
            None => if key == wanted {
                Some(value)
            } else {
                None
            },
        },
    decreases members.len(),
{
    let all = members.push((key, value));
    if members.len() == 0 {
        assert(all.drop_first() =~= Seq::empty());
        reveal_with_fuel(member, 2);
    } else {
        assert(all[0] == members[0]);
        assert(all.drop_first() =~= members.drop_first().push((key, value)));
        lemma_member_push(members.drop_first(), key, value, wanted);
    }
}

/// The text under a key.
pub open spec fn text_under(j: JsonV, key: Seq<char>) -> Option<Seq<char>> {
    match j.field(key) {
        Some(v) => v.text(),
        None => None,
    }
}

/// The flag under a key.
pub open spec fn flag_under(j: JsonV, key: Seq<char>) -> Option<bool> {
    match j.field(key) {
        Some(v) => v.flag(),
        None => None,
    }
}

/// The whole number under a key.
pub open spec fn whole_under(j: JsonV, key: Seq<char>) -> Option<u64> {
    match j.field(key) {
        Some(v) => v.whole(),
        None => None,
    }
}

impl Json {
    pub fn object() -> (r: Json)
        ensures
            r@ == JsonV::object(),
    {
        Json::Object(Vec::new())
    }

    pub fn text(s: &str) -> (r: Json)
        ensures
            r@ == JsonV::Text(s@),
    {
        Json::Text(s.to_owned())
    }

    /// A whole number of either sign.
    pub fn integer(n: i64) -> (r: Json)
        ensures
            r@ == integer_value(n as int),
    {
        if n < 0 {
            Json::Negative(n)
        } else {
            Json::Whole(n as u64)
        }
    }

    /// Add a member to an object.
    pub fn with(self, key: &str, value: Json) -> (r: Json)
        ensures
            r@ == self@.with(key@, value@),
    {
        match self {
            Json::Object(members) => {
                let mut members = members;
                let ghost was = members;
                members.push((key.to_owned(), value));
                proof {
                    lemma_members_prefix(was, members, was@.len());
                }
                Json::Object(members)
            },
            other => other,
        }
    }

    pub fn get(&self, key: &str) -> (r: Option<&Json>)
        ensures
            match r {
                Some(v) => self@.field(key@) == Some(v@),
                None => self@.field(key@) is None,
            },
    {
        match self {
            Json::Object(members) => {
                let ghost all = member_views(*members, members@.len());
                proof {
                    lemma_members(*members, members@.len());
                }
                let mut i: usize = 0;
                assert(all.skip(0) =~= all);
                while i < members.len()
                    invariant
                        i <= members@.len(),
                        all.len() == members@.len(),
                        forall|k: int|
                            0 <= k < all.len() ==> #[trigger] all[k] == (
                                members@[k].0@,
                                members@[k].1@,
                            ),
                        member(all, key@) == member(all.skip(i as int), key@),
                        self@.field(key@) == member(all, key@),
                    decreases members@.len() - i,
                {
                    assert(all.skip(i as int)[0] == all[i as int]);
                    if same(members[i].0.as_str(), key) {
                        return Some(&members[i].1);
                    }
                    assert(all.skip(i as int).drop_first() =~= all.skip(i + 1));
                    i += 1;
                }
                None
            },
            _ => None,
        }
    }

    pub fn as_str(&self) -> (r: Option<&String>)
        ensures
            match r {
                Some(s) => self@.text() == Some(s@),
                None => self@.text() is None,
            },
    {
        match self {
            Json::Text(s) => Some(s),
            _ => None,
        }
    }

    pub fn as_bool(&self) -> (r: Option<bool>)
        ensures
            r == self@.flag(),
    {
        match self {
            Json::Flag(b) => Some(*b),
            _ => None,
        }
    }

    pub fn as_u64(&self) -> (r: Option<u64>)
        ensures
            r == self@.whole(),
    {
        match self {
            Json::Whole(n) => Some(*n),
            _ => None,
        }
    }

    pub fn as_i64(&self) -> (r: Option<i64>)
        ensures
            r == self@.integer(),
    {
        match self {
            Json::Whole(n) => {
                if *n <= 9_223_372_036_854_775_807 {
                    Some(*n as i64)
                } else {
                    None
                }
            },
            Json::Negative(n) => Some(*n),
            _ => None,
        }
    }

    /// The text under a key.
    pub fn str_of(&self, key: &str) -> (r: Option<&String>)
        ensures
            match r {
                Some(s) => text_under(self@, key@) == Some(s@),
                None => text_under(self@, key@) is None,
            },
    {
        match self.get(key) {
            Some(v) => v.as_str(),
            None => None,
        }
    }

    /// The flag under a key.
    pub fn bool_of(&self, key: &str) -> (r: Option<bool>)
        ensures
            r == flag_under(self@, key@),
    {
        match self.get(key) {
            Some(v) => v.as_bool(),
            None => None,
        }
    }

    /// The whole number under a key.
    pub fn u64_of(&self, key: &str) -> (r: Option<u64>)
        ensures
            r == whole_under(self@, key@),
    {
        match self.get(key) {
            Some(v) => v.as_u64(),
            None => None,
        }
    }

    /// A second value equal to this one.
    pub fn copy(&self) -> (r: Json)
        ensures
            r@ == self@,
        decreases self,
    {
        match self {
            Json::Null => Json::Null,
            Json::Flag(b) => Json::Flag(*b),
            Json::Whole(n) => Json::Whole(*n),
            Json::Negative(n) => Json::Negative(*n),
            Json::Fraction(s) => Json::Fraction(s.clone()),
            Json::Text(s) => Json::Text(s.clone()),
            Json::List(items) => {
                let mut out: Vec<Json> = Vec::new();
                let mut i: usize = 0;
                while i < items.len()
                    invariant
                        i <= items@.len(),
                        out@.len() == i,
                        item_views(out, i as nat) == item_views(*items, i as nat),
                        decreases_to!(self => items),
                    decreases items@.len() - i,
                {
                    let ghost was = out;
                    out.push(items[i].copy());
                    proof {
                        lemma_items_prefix(was, out, i as nat);
                    }
                    i += 1;
                }
                Json::List(out)
            },
            Json::Object(members) => {
                let mut out: Vec<(String, Json)> = Vec::new();
                let mut i: usize = 0;
                while i < members.len()
                    invariant
                        i <= members@.len(),
                        out@.len() == i,
                        member_views(out, i as nat) == member_views(*members, i as nat),
                        decreases_to!(self => members),
                    decreases members@.len() - i,
                {
                    let ghost was = out;
                    assert(decreases_to!(members => members@[i as int]));
                    assert(decreases_to!(members@[i as int] => members@[i as int].1));
                    out.push((members[i].0.clone(), members[i].1.copy()));
                    proof {
                        lemma_members_prefix(was, out, i as nat);
                    }
                    i += 1;
                }
                Json::Object(out)
            },
        }
    }
}

/// The value of a whole number of either sign.
pub open spec fn integer_value(n: int) -> JsonV {
    if n < 0 {
        JsonV::Negative(n as i64)
    } else {
        JsonV::Whole(n as u64)
    }
}

pub proof fn lemma_items_prefix(a: Vec<Json>, b: Vec<Json>, n: nat)
    requires
        n <= a@.len(),
        n <= b@.len(),
        forall|j: int| 0 <= j < n ==> a@[j] == b@[j],
    ensures
        item_views(a, n) == item_views(b, n),
    decreases n,
{
    if n > 0 {
        lemma_items_prefix(a, b, (n - 1) as nat);
    }
}

pub proof fn lemma_members_prefix(a: Vec<(String, Json)>, b: Vec<(String, Json)>, n: nat)
    requires
        n <= a@.len(),
        n <= b@.len(),
        forall|j: int| 0 <= j < n ==> a@[j] == b@[j],
    ensures
        member_views(a, n) == member_views(b, n),
    decreases n,
{
    if n > 0 {
        lemma_members_prefix(a, b, (n - 1) as nat);
    }
}

// ------------------------------------------------------------ text

/// A value of `serde_json`.
#[verifier::external_type_specification]
#[verifier::external_body]
pub struct ExValue(serde_json::Value);

/// What a value of `serde_json` holds.
pub uninterp spec fn held(v: serde_json::Value) -> JsonV;

/// The value that some bytes are the JSON text of, or what is wrong with them, in the
/// parser's own words.
pub uninterp spec fn json_parsed(bytes: Seq<u8>) -> Result<JsonV, Seq<char>>;

/// What a number's text is read as: the number, or null where it is none.
pub uninterp spec fn number_kept(text: Seq<char>) -> JsonV;

/// Members in the order of their keys, with one more. Of two with one key the later stays.
pub open spec fn with_member(members: Seq<(Seq<char>, JsonV)>, key: Seq<char>, value: JsonV) -> Seq<
    (Seq<char>, JsonV),
>
    decreases members.len(),
{
    if members.len() == 0 || text_lt(key, members[0].0) {
        seq![(key, value)] + members
    } else if members[0].0 == key {
        seq![(key, value)] + members.drop_first()
    } else {
        seq![members[0]] + with_member(members.drop_first(), key, value)
    }
}

/// What `serde_json` keeps of a value: an object has one member per key, the last one
/// given, and orders its members by their keys.
pub open spec fn json_kept(j: JsonV) -> JsonV
    decreases j, 0nat,
{
    match j {
        JsonV::Negative(n) => if n >= 0 {
            JsonV::Whole(n as u64)
        } else {
            j
        },
        JsonV::Fraction(text) => number_kept(text),
        JsonV::List(items) => JsonV::List(items_kept(items, items.len())),
        JsonV::Object(members) => JsonV::Object(members_kept(members, members.len())),
        _ => j,
    }
}

/// What is kept of the first `n` items.
pub open spec fn items_kept(items: Seq<JsonV>, n: nat) -> Seq<JsonV>
    decreases items, n,
{
    if n == 0 || n > items.len() {
        Seq::empty()
    } else {
        items_kept(items, (n - 1) as nat).push(json_kept(items[n - 1]))
    }
}

/// What is kept of the first `n` members.
pub open spec fn members_kept(members: Seq<(Seq<char>, JsonV)>, n: nat) -> Seq<(Seq<char>, JsonV)>
    decreases members, n,
{
    if n == 0 || n > members.len() {
        Seq::empty()
    } else {
        with_member(
            members_kept(members, (n - 1) as nat),
            members[n - 1].0,
            json_kept(members[n - 1].1),
        )
    }
}

/// The JSON text of a value.
pub uninterp spec fn json_written(j: JsonV) -> Seq<char>;

/// `serde_json::from_slice` into a `serde_json::Value`: the value, if the bytes are
/// JSON, or what the error says.
#[verifier::external_body]
fn parse_value(bytes: &[u8]) -> (r: Result<Value, String>)
    ensures
        match r {
            Ok(v) => json_parsed(bytes@) == Ok::<JsonV, Seq<char>>(held(v)),
            Err(e) => json_parsed(bytes@) == Err::<JsonV, Seq<char>>(e@),
        },
{
    serde_json::from_slice::<Value>(bytes).map_err(|e| e.to_string())
}

/// Take a `serde_json::Value` apart: its variants one for one, a number by
/// `Number::as_u64` and `Number::as_i64`, or else as its decimal text.
#[verifier::external_body]
fn from_value(v: &Value) -> (r: Json)
    ensures
        r@ == held(*v),
{
    match v {
        Value::Null => Json::Null,
        Value::Bool(b) => Json::Flag(*b),
        Value::Number(n) => match (n.as_u64(), n.as_i64()) {
            (Some(u), _) => Json::Whole(u),
            (None, Some(i)) => Json::Negative(i),
            (None, None) => Json::Fraction(n.to_string()),
        },
        Value::String(s) => Json::Text(s.clone()),
        Value::Array(a) => Json::List(a.iter().map(from_value).collect()),
        Value::Object(o) => Json::Object(o.iter().map(|(k, x)| (k.clone(), from_value(x))).collect()),
    }
}

/// Put a `serde_json::Value` together: the variants one for one. A map of `serde_json`,
/// which is built without `preserve_order`, keeps the last member of each key and orders
/// them by key. A number's text goes through `Number::from_str`; one that it cannot read
/// becomes null.
#[verifier::external_body]
fn to_value(j: &Json) -> (r: Value)
    ensures
        held(r) == json_kept(j@),
        j@ is Fraction ==> held(r) == number_kept(j@->Fraction_0),
{
    match j {
        Json::Null => Value::Null,
        Json::Flag(b) => Value::from(*b),
        Json::Whole(n) => Value::from(*n),
        Json::Negative(n) => Value::from(*n),
        Json::Fraction(s) => s.parse::<serde_json::Number>().map(Value::Number).unwrap_or_default(),
        Json::Text(s) => Value::from(s.as_str()),
        Json::List(items) => items.iter().map(to_value).collect(),
        Json::Object(members) => members.iter().map(|(k, x)| (k.clone(), to_value(x))).collect(),
    }
}

/// Whether a value holds no numbers but whole ones, and is nested at most this deep.
pub open spec fn is_plain(j: JsonV, depth: nat) -> bool
    decreases depth,
{
    match j {
        JsonV::Fraction(_) => false,
        JsonV::List(items) => depth > 0 && forall|i: int|
            0 <= i < items.len() ==> is_plain(#[trigger] items[i], (depth - 1) as nat),
        JsonV::Object(members) => depth > 0 && forall|i: int|
            0 <= i < members.len() ==> is_plain((#[trigger] members[i]).1, (depth - 1) as nat),
        _ => true,
    }
}

/// `Display` of `serde_json::Value`: the compact JSON text. `serde_json::from_slice` gives
/// back the value that was written, where it holds whole numbers only and is nested less
/// deep than the parser goes, which is 127 levels.
#[verifier::external_body]
fn value_text(v: &Value) -> (r: String)
    ensures
        r@ == json_written(held(*v)),
        is_plain(held(*v), 100) ==> json_read(vstd::utf8::encode_utf8(r@)) == Some(held(*v)),
{
    v.to_string()
}

/// The value that some bytes are the JSON text of.
pub open spec fn json_read(bytes: Seq<u8>) -> Option<JsonV> {
    match json_parsed(bytes) {
        Ok(v) => Some(v),
        Err(_) => None,
    }
}

/// Read JSON text.
pub fn read_json(bytes: &[u8]) -> (r: Option<Json>)
    ensures
        opt_json(r) == json_read(bytes@),
{
    match parse_value(bytes) {
        Ok(v) => Some(from_value(&v)),
        Err(_) => None,
    }
}

/// Read JSON text, or say what is wrong with it.
pub fn try_read_json(bytes: &[u8]) -> (r: Result<Json, String>)
    ensures
        match r {
            Ok(j) => json_parsed(bytes@) == Ok::<JsonV, Seq<char>>(j@),
            Err(e) => json_parsed(bytes@) == Err::<JsonV, Seq<char>>(e@),
        },
{
    match parse_value(bytes) {
        Ok(v) => Ok(from_value(&v)),
        Err(e) => Err(e),
    }
}

/// Write JSON text. What is written is read back as what was kept of it.
pub fn write_json(j: &Json) -> (r: String)
    ensures
        r@ == json_text(j@),
        is_plain(json_kept(j@), 100) ==> json_read(vstd::utf8::encode_utf8(r@)) == Some(
            json_kept(j@),
        ),
{
    value_text(&to_value(j))
}

/// The text that a value is written as.
pub open spec fn json_text(j: JsonV) -> Seq<char> {
    json_written(json_kept(j))
}

pub open spec fn opt_json(j: Option<Json>) -> Option<JsonV> {
    match j {
        Some(j) => Some(j@),
        None => None,
    }
}

// ------------------------------------------------------------ laws

/// Whether keys ascend, so that none comes twice.
pub open spec fn ascend(members: Seq<(Seq<char>, JsonV)>) -> bool {
    forall|i: int, j: int|
        0 <= i < j < members.len() ==> text_lt((#[trigger] members[i]).0, (#[trigger] members[j]).0)
}

/// An object keeps every key once, in the order of the keys, whatever was given.
pub proof fn kept_keys_ascend(members: Seq<(Seq<char>, JsonV)>, n: nat)
    ensures
        ascend(members_kept(members, n)),
    decreases n,
{
    if 0 < n <= members.len() {
        kept_keys_ascend(members, (n - 1) as nat);
        lemma_with_member(
            members_kept(members, (n - 1) as nat),
            members[n - 1].0,
            json_kept(members[n - 1].1),
        );
    }
}

proof fn lemma_with_member(members: Seq<(Seq<char>, JsonV)>, key: Seq<char>, value: JsonV)
    requires
        ascend(members),
    ensures
        ascend(with_member(members, key, value)),
        forall|i: int|
            0 <= i < with_member(members, key, value).len() ==> (#[trigger] with_member(
                members,
                key,
                value,
            )[i]).0 == key || exists|j: int|
                0 <= j < members.len() && (#[trigger] members[j]).0 == with_member(
                    members,
                    key,
                    value,
                )[i].0,
    decreases members.len(),
{
    let r = with_member(members, key, value);
    if members.len() == 0 {
        assert(r =~= seq![(key, value)]);
    } else if text_lt(key, members[0].0) {
        assert forall|i: int, j: int| 0 <= i < j < r.len() implies text_lt(
            (#[trigger] r[i]).0,
            (#[trigger] r[j]).0,
        ) by {
            if i == 0 {
                assert(r[j] == members[j - 1]);
                if j > 1 {
                    assert(text_lt(members[0].0, members[j - 1].0));
                    text_order_is_transitive(key, members[0].0, members[j - 1].0);
                }
            } else {
                assert(r[i] == members[i - 1] && r[j] == members[j - 1]);
            }
        }
        assert forall|i: int| 0 <= i < r.len() implies (#[trigger] r[i]).0 == key || exists|j: int|
            0 <= j < members.len() && (#[trigger] members[j]).0 == r[i].0 by {
            if i > 0 {
                assert(members[i - 1] == r[i]);
            }
        }
    } else if members[0].0 == key {
        assert forall|i: int| 0 <= i < r.len() implies (#[trigger] r[i]).0 == members[i].0 by {
            if i > 0 {
                assert(r[i] == members.drop_first()[i - 1]);
            }
        }
    } else {
        let rest = members.drop_first();
        let inner = with_member(rest, key, value);
        assert forall|i: int, j: int| 0 <= i < j < rest.len() implies text_lt(
            (#[trigger] rest[i]).0,
            (#[trigger] rest[j]).0,
        ) by {
            assert(rest[i] == members[i + 1] && rest[j] == members[j + 1]);
        }
        lemma_with_member(rest, key, value);
        text_order_is_total(members[0].0, key);
        assert forall|i: int| 0 <= i < inner.len() implies text_lt(
            members[0].0,
            (#[trigger] inner[i]).0,
        ) && (inner[i].0 == key || exists|j: int|
            0 <= j < members.len() && (#[trigger] members[j]).0 == inner[i].0) by {
            if inner[i].0 != key {
                let j = choose|j: int|
                    0 <= j < rest.len() && (#[trigger] rest[j]).0 == inner[i].0;
                assert(rest[j] == members[j + 1]);
            }
        }
        assert forall|i: int, j: int| 0 <= i < j < r.len() implies text_lt(
            (#[trigger] r[i]).0,
            (#[trigger] r[j]).0,
        ) by {
            assert(r[j] == inner[j - 1]);
            if i > 0 {
                assert(r[i] == inner[i - 1]);
            }
        }
        assert forall|i: int| 0 <= i < r.len() implies (#[trigger] r[i]).0 == key || exists|j: int|
            0 <= j < members.len() && (#[trigger] members[j]).0 == r[i].0 by {
            if i > 0 {
                assert(r[i] == inner[i - 1]);
            } else {
                assert(members[0].0 == r[i].0);
            }
        }
    }
}

} // verus!
