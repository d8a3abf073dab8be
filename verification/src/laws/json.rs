//! What JSON values hold.

use vstd::prelude::*;

use crate::json::{integer_value, lemma_member_push, JsonV};

verus! {

/// An object has no members at first. A member that is added under a new key is found under
/// it, and members under other keys stay what they were.
pub proof fn members_are_found_under_their_keys(
    j: JsonV,
    key: Seq<char>,
    value: JsonV,
    other: Seq<char>,
)
    requires
        j is Object,
    ensures
        JsonV::object() is Object,
        JsonV::object().field(key) is None,
        j.with(key, value) is Object,
        j.field(key) is None ==> j.with(key, value).field(key) == Some(value),
        j.field(key) is Some ==> j.with(key, value).field(key) == j.field(key),
        other != key ==> j.with(key, value).field(other) == j.field(other),
{
    lemma_member_push(j->Object_0, key, value, key);
    lemma_member_push(j->Object_0, key, value, other);
}

/// A value is read as what it is, and as nothing else.
pub proof fn values_are_read_as_what_they_are(b: bool, n: u64, i: i64, s: Seq<char>)
    ensures
        JsonV::Flag(b).flag() == Some(b),
        JsonV::Whole(n).whole() == Some(n),
        JsonV::Text(s).text() == Some(s),
        JsonV::Negative(i).integer() == Some(i),
        n <= i64::MAX ==> JsonV::Whole(n).integer() == Some(n as i64),
        n > i64::MAX ==> JsonV::Whole(n).integer() is None,
        JsonV::Flag(b).whole() is None,
        JsonV::Flag(b).text() is None,
        JsonV::Flag(b).integer() is None,
        JsonV::Whole(n).flag() is None,
        JsonV::Whole(n).text() is None,
        JsonV::Negative(i).whole() is None,
        JsonV::Text(s).flag() is None,
        JsonV::Text(s).whole() is None,
        JsonV::Text(s).integer() is None,
        JsonV::Null.flag() is None,
        JsonV::Null.whole() is None,
        JsonV::Null.text() is None,
{
}

/// A whole number is written so that it is read back as itself.
pub proof fn whole_numbers_are_read_back(n: i64)
    ensures
        integer_value(n as int).integer() == Some(n),
        n >= 0 ==> integer_value(n as int) == JsonV::Whole(n as u64),
        n < 0 ==> integer_value(n as int) == JsonV::Negative(n),
{
}

} // verus!
