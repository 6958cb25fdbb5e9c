//! JSON values.

use vstd::prelude::*;
use vstd::string::*;

use crate::number::Number;
use crate::text;

verus! {

/// A JSON number, by the form in which it was read.
#[derive(Clone, Copy, Debug, Eq, PartialEq, Structural)]
pub enum JsonNumber {
    /// An integer that is not negative.
    Unsigned(u64),
    /// A negative integer.
    Negative(i64),
    /// Any other number.
    Float(Number),
}

/// A JSON value.
#[derive(Debug)]
pub enum JsonValue {
    Null,
    Bool(bool),
    Number(JsonNumber),
    Text(String),
    Array(Vec<JsonValue>),
    /// The members of an object, each name once. Their order does not matter.
    Object(Vec<JsonMember>),
}

/// A member of a JSON object.
#[derive(Debug)]
pub struct JsonMember {
    pub name: String,
    pub value: JsonValue,
}

/// Two numbers are the same: read in the same form, and equal.
pub open spec fn same_number(a: JsonNumber, b: JsonNumber) -> bool {
    match (a, b) {
        (JsonNumber::Unsigned(x), JsonNumber::Unsigned(y)) => x == y,
        (JsonNumber::Negative(x), JsonNumber::Negative(y)) => x == y,
        (JsonNumber::Float(x), JsonNumber::Float(y)) => x.equals(y),
        _ => false,
    }
}

/// Two values are the same: of one kind, and with the same content at every depth.
pub open spec fn same_value(a: JsonValue, b: JsonValue) -> bool
    decreases a,
{
    match (a, b) {
        (JsonValue::Null, JsonValue::Null) => true,
        (JsonValue::Bool(x), JsonValue::Bool(y)) => x == y,
        (JsonValue::Number(x), JsonValue::Number(y)) => same_number(x, y),
        (JsonValue::Text(x), JsonValue::Text(y)) => x@ == y@,
        (JsonValue::Array(x), JsonValue::Array(y)) => {
            &&& x@.len() == y@.len()
            &&& forall|i: int| 0 <= i < x@.len() ==> same_value(#[trigger] x@[i], y@[i])
        },
        (JsonValue::Object(x), JsonValue::Object(y)) => {
            &&& x@.len() == y@.len()
            &&& forall|i: int| 0 <= i < x@.len() ==> has_same_member(#[trigger] x@[i], y@)
        },
        _ => false,
    }
}

/// One of the members has the name and the value of the member.
pub open spec fn has_same_member(member: JsonMember, members: Seq<JsonMember>) -> bool
    decreases member,
{
    exists|i: int|
        0 <= i < members.len() && (#[trigger] members[i]).name@ == member.name@ && same_value(
            member.value,
            members[i].value,
        )
}

/// Tells whether two numbers are the same.
pub fn equal_numbers(a: JsonNumber, b: JsonNumber) -> (r: bool)
    ensures
        r == same_number(a, b),
{
    match (a, b) {
        (JsonNumber::Unsigned(x), JsonNumber::Unsigned(y)) => x == y,
        (JsonNumber::Negative(x), JsonNumber::Negative(y)) => x == y,
        (JsonNumber::Float(x), JsonNumber::Float(y)) => x.is_equal(y),
        _ => false,
    }
}

/// Tells whether two values are the same.
pub fn equal(a: &JsonValue, b: &JsonValue) -> (r: bool)
    ensures
        r == same_value(*a, *b),
    decreases a,
{
    match (a, b) {
        (JsonValue::Null, JsonValue::Null) => true,
        (JsonValue::Bool(x), JsonValue::Bool(y)) => *x == *y,
        (JsonValue::Number(x), JsonValue::Number(y)) => equal_numbers(*x, *y),
        (JsonValue::Text(x), JsonValue::Text(y)) => text::same(x, y),
        (JsonValue::Array(x), JsonValue::Array(y)) => {
            if x.len() != y.len() {
                return false;
            }
            let mut i: usize = 0;
            while i < x.len()
                invariant
                    i <= x@.len(),
                    x@.len() == y@.len(),
                    *a == JsonValue::Array(*x),
                    *b == JsonValue::Array(*y),
                    forall|j: int| 0 <= j < i ==> same_value(#[trigger] x@[j], y@[j]),
                decreases x@.len() - i,
            {
                assert(decreases_to!(*a => a->Array_0));
                assert(decreases_to!(a->Array_0 => a->Array_0@));
                assert(decreases_to!(a->Array_0@ => a->Array_0@[i as int]));
                if !equal(&x[i], &y[i]) {
                    assert(!same_value(x@[i as int], y@[i as int]));
                    return false;
                }
                i += 1;
            }
            true
        },
        (JsonValue::Object(x), JsonValue::Object(y)) => {
            if x.len() != y.len() {
                return false;
            }
            let mut i: usize = 0;
            while i < x.len()
                invariant
                    i <= x@.len(),
                    x@.len() == y@.len(),
                    *a == JsonValue::Object(*x),
                    *b == JsonValue::Object(*y),
                    forall|k: int| 0 <= k < i ==> has_same_member(#[trigger] x@[k], y@),
                decreases x@.len() - i,
            {
                assert(decreases_to!(*a => a->Object_0));
                assert(decreases_to!(a->Object_0 => a->Object_0@));
                assert(decreases_to!(a->Object_0@ => a->Object_0@[i as int]));
                assert(decreases_to!(a->Object_0@[i as int] => a->Object_0@[i as int].value));
                let mut found = false;
                let mut j: usize = 0;
                while !found && j < y.len()
                    invariant
                        i < x@.len(),
                        j <= y@.len(),
                        *a == JsonValue::Object(*x),
                        decreases_to!(*a => x@[i as int].value),
                        found ==> has_same_member(x@[i as int], y@),
                        !found ==> forall|k: int|
                            0 <= k < j ==> !((#[trigger] y@[k]).name@ == x@[i as int].name@
                                && same_value(x@[i as int].value, y@[k].value)),
                    decreases
                        y@.len() - j,
                        if found {
                            0nat
                        } else {
                            1nat
                        },
                {
                    if text::same(&x[i].name, &y[j].name) && equal(&x[i].value, &y[j].value) {
                        assert(y@[j as int].name@ == x@[i as int].name@);
                        found = true;
                    } else {
                        j += 1;
                    }
                }
                if !found {
                    assert(!has_same_member(x@[i as int], y@));
                    return false;
                }
                i += 1;
            }
            true
        },
        _ => false,
    }
}

/// The value of the first member with a name.
pub open spec fn member(members: Seq<JsonMember>, name: Seq<char>) -> Option<JsonValue>
    decreases members.len(),
{
    if members.len() == 0 {
        None
    } else if members[0].name@ == name {
        Some(members[0].value)
    } else {
        member(members.drop_first(), name)
    }
}

/// The value of a member of an object; other values have none.
pub open spec fn field(value: JsonValue, name: Seq<char>) -> Option<JsonValue> {
    match value {
        JsonValue::Object(members) => member(members@, name),
        _ => None,
    }
}

impl JsonValue {
    /// The value of a member of an object; other values have none.
    pub fn get(&self, name: &str) -> (r: Option<&JsonValue>)
        ensures
            match field(*self, name@) {
                Some(value) => r == Some(&value),
                None => r is None,
            },
    {
        match self {
            JsonValue::Object(members) => {
                let mut i: usize = 0;
                assert(members@.skip(0) == members@);
                while i < members.len()
                    invariant
                        i <= members@.len(),
                        *self == JsonValue::Object(*members),
                        field(*self, name@) == member(members@.skip(i as int), name@),
                    decreases members@.len() - i,
                {
                    assert(members@.skip(i as int)[0] == members@[i as int]);
                    assert(members@.skip(i as int).drop_first() == members@.skip(i + 1));
                    if text::same(&members[i].name, name) {
                        return Some(&members[i].value);
                    }
                    i += 1;
                }
                None
            },
            _ => None,
        }
    }
}

} // verus!
