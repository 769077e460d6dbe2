//! What holds of JSON values: how members are found, and when values are equal.

use vstd::prelude::*;

use crate::json::{lookup, property, same_json, same_number, Json, Number};

verus! {

/// A key is found exactly if a member has it, and what is found is the value of
/// the first member that has it.
pub proof fn lookups_find_the_first_member<K, V>(members: Seq<(K, V)>, key: K)
    ensures
        lookup(members, key) is None <==> (forall|i: int|
            0 <= i < members.len() ==> (#[trigger] members[i]).0 != key),
        lookup(members, key) matches Some(value) ==> exists|i: int|
            0 <= i < members.len() && (#[trigger] members[i]) == (key, value) && forall|j: int|
                0 <= j < i ==> (#[trigger] members[j]).0 != key,
    decreases members.len(),
{
    if members.len() > 0 {
        let rest = members.drop_first();
        lookups_find_the_first_member(rest, key);
        assert(forall|i: int| 0 <= i < rest.len() ==> rest[i] == members[i + 1]);
        if members[0].0 == key {
            assert(members[0] == (key, members[0].1));
        } else {
            if lookup(rest, key) is None {
                assert forall|i: int| 0 <= i < members.len() implies (#[trigger] members[i]).0
                    != key by {
                    if i > 0 {
                        assert(rest[i - 1].0 != key);
                    }
                }
            } else {
                let value = lookup(rest, key)->0;
                let i = choose|i: int|
                    0 <= i < rest.len() && (#[trigger] rest[i]) == (key, value) && forall|j: int|
                        0 <= j < i ==> (#[trigger] rest[j]).0 != key;
                assert(members[i + 1] == (key, value));
                assert forall|j: int| 0 <= j < i + 1 implies (#[trigger] members[j]).0 != key by {
                    if j > 0 {
                        assert(rest[j - 1].0 != key);
                    }
                }
            }
        }
    }
}

/// Only objects have members to look up.
pub proof fn only_objects_have_properties(value: Json, key: Seq<char>)
    ensures
        property(value, key) is Some ==> value is Object,
        value matches Json::Object(members) ==> property(value, key) == lookup(members, key),
{
}

/// Numbers are equal if they are the same, or both a zero with either sign.
pub proof fn numbers_are_equal_by_value(a: u64, b: u64, n: i64, m: i64, x: u64, y: u64)
    ensures
        same_number(Number::Unsigned(a), Number::Unsigned(b)) <==> a == b,
        same_number(Number::Negative(n), Number::Negative(m)) <==> n == m,
        !same_number(Number::Unsigned(a), Number::Negative(n)),
        !same_number(Number::Unsigned(a), Number::Float(x)),
        !same_number(Number::Negative(n), Number::Float(x)),
        same_number(Number::Float(x), Number::Float(y)) <==> x == y || ((x == 0 || x
            == 0x8000_0000_0000_0000) && (y == 0 || y == 0x8000_0000_0000_0000)),
{
}

/// Equality of values goes both ways.
pub proof fn equality_is_symmetric(a: Json, b: Json)
    ensures
        same_json(a, b) <==> same_json(b, a),
    decreases a,
{
    match (a, b) {
        (Json::Array(left), Json::Array(right)) => {
            assert forall|i: int| 0 <= i < left.len() && i < right.len() implies same_json(
                #[trigger] left[i],
                right[i],
            ) <==> same_json(right[i], left[i]) by {
                equality_is_symmetric(left[i], right[i]);
            }
            if same_json(b, a) {
                assert forall|i: int| 0 <= i < left.len() implies same_json(
                    #[trigger] left[i],
                    right[i],
                ) by {
                    assert(same_json(right[i], left[i]));
                }
            }
            if same_json(a, b) {
                assert forall|i: int| 0 <= i < right.len() implies same_json(
                    #[trigger] right[i],
                    left[i],
                ) by {
                    assert(same_json(left[i], right[i]));
                }
            }
        },
        (Json::Object(left), Json::Object(right)) => {
            assert forall|i: int| 0 <= i < left.len() && i < right.len() implies same_json(
                (#[trigger] left[i]).1,
                right[i].1,
            ) <==> same_json(right[i].1, left[i].1) by {
                equality_is_symmetric(left[i].1, right[i].1);
            }
            if same_json(b, a) {
                assert forall|i: int| 0 <= i < left.len() implies (#[trigger] left[i]).0
                    == right[i].0 && same_json(left[i].1, right[i].1) by {
                    assert(right[i].0 == left[i].0);
                }
            }
            if same_json(a, b) {
                assert forall|i: int| 0 <= i < right.len() implies (#[trigger] right[i]).0
                    == left[i].0 && same_json(right[i].1, left[i].1) by {
                    assert(left[i].0 == right[i].0);
                }
            }
        },
        _ => {},
    }
}

/// Equality of values carries over.
pub proof fn equality_is_transitive(a: Json, b: Json, c: Json)
    requires
        same_json(a, b),
        same_json(b, c),
    ensures
        same_json(a, c),
    decreases a,
{
    match (a, b, c) {
        (Json::Array(x), Json::Array(y), Json::Array(z)) => {
            assert forall|i: int| 0 <= i < x.len() implies same_json(#[trigger] x[i], z[i]) by {
                assert(same_json(x[i], y[i]) && same_json(y[i], z[i]));
                equality_is_transitive(x[i], y[i], z[i]);
            }
        },
        (Json::Object(x), Json::Object(y), Json::Object(z)) => {
            assert forall|i: int| 0 <= i < x.len() implies (#[trigger] x[i]).0 == z[i].0
                && same_json(x[i].1, z[i].1) by {
                assert(x[i].0 == y[i].0 && y[i].0 == z[i].0);
                equality_is_transitive(x[i].1, y[i].1, z[i].1);
            }
        },
        _ => {},
    }
}

/// No number in the value is a fraction.
pub open spec fn without_fractions(value: Json) -> bool
    decreases value,
{
    match value {
        Json::Number(number) => !(number is Float),
        Json::Array(values) => forall|i: int|
            0 <= i < values.len() ==> without_fractions(#[trigger] values[i]),
        Json::Object(members) => forall|i: int|
            0 <= i < members.len() ==> without_fractions((#[trigger] members[i]).1),
        _ => true,
    }
}

/// A value equals itself, and without fractions nothing else.
pub proof fn equal_values_are_the_same(a: Json, b: Json)
    ensures
        a == b ==> same_json(a, b),
        same_json(a, b) && without_fractions(a) ==> a == b,
    decreases a,
{
    match (a, b) {
        (Json::Array(left), Json::Array(right)) => {
            assert forall|i: int| 0 <= i < left.len() && i < right.len() implies (left[i]
                == right[i] ==> same_json(#[trigger] left[i], right[i])) && (same_json(
                left[i],
                right[i],
            ) && without_fractions(left[i]) ==> left[i] == right[i]) by {
                equal_values_are_the_same(left[i], right[i]);
            }
            if same_json(a, b) && without_fractions(a) {
                assert(left =~= right);
            }
        },
        (Json::Object(left), Json::Object(right)) => {
            assert forall|i: int| 0 <= i < left.len() && i < right.len() implies (left[i].1
                == right[i].1 ==> same_json((#[trigger] left[i]).1, right[i].1)) && (same_json(
                left[i].1,
                right[i].1,
            ) && without_fractions(left[i].1) ==> left[i].1 == right[i].1) by {
                equal_values_are_the_same(left[i].1, right[i].1);
            }
            if same_json(a, b) && without_fractions(a) {
                assert forall|i: int| 0 <= i < left.len() implies left[i] == right[i] by {
                    assert(left[i].0 == right[i].0);
                    assert(left[i].1 == right[i].1);
                }
                assert(left =~= right);
            }
        },
        _ => {},
    }
}

}
