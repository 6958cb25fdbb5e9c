//! What it means that two JSON values are the same.

use vstd::prelude::*;
use vstd::set_lib::*;

use crate::json;
use crate::json::{JsonMember, JsonNumber, JsonValue};

verus! {

/// What a JSON value says, however it is held.
pub enum Meaning {
    Nothing,
    Truth(bool),
    Unsigned(int),
    Negative(int),
    /// A number that was not read as an integer, by its place among all of them.
    Other(int),
    Text(Seq<char>),
    List(Seq<Meaning>),
    /// What each name stands for.
    Names(Map<Seq<char>, Meaning>),
}

/// A member with the name stands at the place.
pub open spec fn named_at(members: Seq<JsonMember>, name: Seq<char>, i: int) -> bool {
    0 <= i < members.len() && members[i].name@ == name
}

/// What a value says.
pub open spec fn meaning(value: JsonValue) -> Meaning
    decreases value,
{
    match value {
        JsonValue::Null => Meaning::Nothing,
        JsonValue::Bool(truth) => Meaning::Truth(truth),
        JsonValue::Number(JsonNumber::Unsigned(n)) => Meaning::Unsigned(n as int),
        JsonValue::Number(JsonNumber::Negative(n)) => Meaning::Negative(n as int),
        JsonValue::Number(JsonNumber::Float(n)) => Meaning::Other(
            if n.bits >= 0x8000_0000_0000_0000u64 {
                0x8000_0000_0000_0000u64 - n.bits
            } else {
                n.bits as int
            },
        ),
        JsonValue::Text(text) => Meaning::Text(text@),
        JsonValue::Array(items) => Meaning::List(
            Seq::new(
                items@.len(),
                |i: int|
                    if 0 <= i < items@.len() {
                        meaning(items@[i])
                    } else {
                        Meaning::Nothing
                    },
            ),
        ),
        JsonValue::Object(members) => Meaning::Names(
            Map::new(
                |name: Seq<char>| exists|i: int| named_at(members@, name, i),
                |name: Seq<char>|
                    {
                        let i = choose|i: int| named_at(members@, name, i);
                        if 0 <= i < members@.len() {
                            meaning(members@[i].value)
                        } else {
                            Meaning::Nothing
                        }
                    },
            ),
        ),
    }
}

/// The value is one that JSON can write: every object has a name once, and every number is one.
pub open spec fn proper(value: JsonValue) -> bool
    decreases value,
{
    match value {
        JsonValue::Number(JsonNumber::Float(n)) => n.finite(),
        JsonValue::Array(items) => forall|i: int|
            0 <= i < items@.len() ==> proper(#[trigger] items@[i]),
        JsonValue::Object(members) => {
            &&& forall|i: int| 0 <= i < members@.len() ==> proper((#[trigger] members@[i]).value)
            &&& forall|i: int, j: int|
                0 <= i < j < members@.len() ==> (#[trigger] members@[i]).name@ != (
                #[trigger] members@[j]).name@
        },
        _ => true,
    }
}

/// The names of members, in order.
spec fn names(members: Seq<JsonMember>) -> Seq<Seq<char>> {
    Seq::new(members.len(), |i: int| members[i].name@)
}

proof fn lemma_names(members: JsonValue)
    requires
        members is Object,
        proper(members),
    ensures
        names(members->Object_0@).to_set() == meaning(members)->Names_0.dom(),
        names(members->Object_0@).to_set().len() == members->Object_0@.len(),
        names(members->Object_0@).to_set().finite(),
{
    let all = members->Object_0@;
    let list = names(all);
    assert(list.no_duplicates()) by {
        assert forall|i: int, j: int|
            0 <= i < list.len() && 0 <= j < list.len() && i != j implies list[i] != list[j] by {
            if i < j {
                assert(all[i].name@ != all[j].name@);
            } else {
                assert(all[j].name@ != all[i].name@);
            }
        }
    }
    list.unique_seq_to_set();
    let dom = meaning(members)->Names_0.dom();
    assert forall|name: Seq<char>| list.to_set().contains(name) <==> dom.contains(name) by {
        if list.to_set().contains(name) {
            let i = choose|i: int| 0 <= i < list.len() && list[i] == name;
            assert(named_at(all, name, i));
        }
        if dom.contains(name) {
            let i = choose|i: int| named_at(all, name, i);
            assert(list[i] == name);
        }
    }
    assert(list.to_set() =~= dom);
    vstd::seq_lib::seq_to_set_is_finite(list);
}

proof fn lemma_named(value: JsonValue, i: int)
    requires
        value is Object,
        proper(value),
        0 <= i < value->Object_0@.len(),
    ensures
        meaning(value)->Names_0.dom().contains(value->Object_0@[i].name@),
        meaning(value)->Names_0[value->Object_0@[i].name@] == meaning(value->Object_0@[i].value),
{
    let all = value->Object_0@;
    let name = all[i].name@;
    assert(named_at(all, name, i));
    let k = choose|k: int| named_at(all, name, k);
    if k < i {
        assert(all[k].name@ != all[i].name@);
    } else if i < k {
        assert(all[i].name@ != all[k].name@);
    }
}

/// Two values are the same exactly if they say the same: the same texts, character for character, the
/// same numbers, lists of the same items in the same order, and names that stand for the same.
pub proof fn the_same_values_say_the_same(a: JsonValue, b: JsonValue)
    requires
        proper(a),
        proper(b),
    ensures
        json::same_value(a, b) <==> meaning(a) == meaning(b),
    decreases a,
{
    match (a, b) {
        (JsonValue::Array(x), JsonValue::Array(y)) => {
            assert forall|i: int| 0 <= i < x@.len() && i < y@.len() implies (json::same_value(
                #[trigger] x@[i],
                y@[i],
            ) <==> meaning(x@[i]) == meaning(y@[i])) by {
                assert(decreases_to!(a => x@[i])) by {
                    assert(decreases_to!(a => a->Array_0));
                    assert(decreases_to!(a->Array_0 => a->Array_0@));
                    assert(decreases_to!(a->Array_0@ => a->Array_0@[i]));
                }
                the_same_values_say_the_same(x@[i], y@[i]);
            }
            let p = meaning(a)->List_0;
            let q = meaning(b)->List_0;
            assert(p.len() == x@.len() && q.len() == y@.len());
            assert(forall|i: int| 0 <= i < p.len() ==> #[trigger] p[i] == meaning(x@[i]));
            assert(forall|i: int| 0 <= i < q.len() ==> #[trigger] q[i] == meaning(y@[i]));
            if json::same_value(a, b) {
                assert forall|i: int| 0 <= i < p.len() implies p[i] == q[i] by {
                    assert(json::same_value(x@[i], y@[i]));
                }
                assert(p =~= q);
            }
            if meaning(a) == meaning(b) {
                assert forall|i: int| 0 <= i < x@.len() implies json::same_value(
                    #[trigger] x@[i],
                    y@[i],
                ) by {
                    assert(p[i] == q[i]);
                }
            }
        },
        (JsonValue::Object(x), JsonValue::Object(y)) => {
            assert forall|i: int, j: int|
                0 <= i < x@.len() && 0 <= j < y@.len() implies (json::same_value(
                (#[trigger] x@[i]).value,
                (#[trigger] y@[j]).value,
            ) <==> meaning(x@[i].value) == meaning(y@[j].value)) by {
                assert(decreases_to!(a => x@[i].value)) by {
                    assert(decreases_to!(a => a->Object_0));
                    assert(decreases_to!(a->Object_0 => a->Object_0@));
                    assert(decreases_to!(a->Object_0@ => a->Object_0@[i]));
                    assert(decreases_to!(a->Object_0@[i] => a->Object_0@[i].value));
                }
                the_same_values_say_the_same(x@[i].value, y@[j].value);
            }
            let p = meaning(a)->Names_0;
            let q = meaning(b)->Names_0;
            lemma_names(a);
            lemma_names(b);
            if json::same_value(a, b) {
                assert forall|name: Seq<char>| #[trigger] p.dom().contains(name) implies q.dom().contains(
                    name,
                ) && p[name] == q[name] by {
                    let i = choose|i: int| named_at(x@, name, i);
                    lemma_named(a, i);
                    assert(json::has_same_member(x@[i], y@));
                    let j = choose|j: int|
                        0 <= j < y@.len() && (#[trigger] y@[j]).name@ == x@[i].name@
                            && json::same_value(x@[i].value, y@[j].value);
                    lemma_named(b, j);
                }
                assert(p.dom().subset_of(q.dom()));
                lemma_subset_equality(p.dom(), q.dom());
                assert(p =~= q);
            }
            if meaning(a) == meaning(b) {
                assert(x@.len() == y@.len());
                assert forall|i: int| 0 <= i < x@.len() implies json::has_same_member(
                    #[trigger] x@[i],
                    y@,
                ) by {
                    lemma_named(a, i);
                    let name = x@[i].name@;
                    let j = choose|j: int| named_at(y@, name, j);
                    lemma_named(b, j);
                    assert(y@[j].name@ == x@[i].name@);
                }
            }
        },
        _ => {},
    }
}

/// The member of an object that is found by a name is the one that has it.
pub proof fn a_member_is_found_by_its_name(value: JsonValue, name: Seq<char>)
    requires
        proper(value),
    ensures
        match json::field(value, name) {
            Some(found) => value is Object && meaning(value)->Names_0.dom().contains(name)
                && meaning(found) == meaning(value)->Names_0[name] && proper(found),
            None => value is Object ==> !meaning(value)->Names_0.dom().contains(name),
        },
{
    if value is Object {
        let members = value->Object_0@;
        lemma_first_member(members, name);
        match json::field(value, name) {
            Some(found) => {
                let i = choose|i: int| named_at(members, name, i) && members[i].value == found;
                lemma_named(value, i);
            },
            None => {},
        }
    }
}

proof fn lemma_first_member(members: Seq<JsonMember>, name: Seq<char>)
    ensures
        match json::member(members, name) {
            Some(found) => exists|i: int|
                named_at(members, name, i) && members[i].value == found,
            None => forall|i: int| !named_at(members, name, i),
        },
    decreases members.len(),
{
    if members.len() > 0 {
        if members[0].name@ == name {
            assert(named_at(members, name, 0));
        } else {
            let rest = members.drop_first();
            lemma_first_member(rest, name);
            match json::member(members, name) {
                Some(found) => {
                    let i = choose|i: int| named_at(rest, name, i) && rest[i].value == found;
                    assert(named_at(members, name, i + 1) && members[i + 1].value == found);
                },
                None => {
                    assert forall|i: int| !named_at(members, name, i) by {
                        if named_at(members, name, i) {
                            assert(named_at(rest, name, i - 1));
                        }
                    }
                },
            }
        }
    }
}

} // verus!
