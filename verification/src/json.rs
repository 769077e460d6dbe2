//! JSON values and their mathematical model.

use vstd::prelude::*;
use vstd::string::*;

use crate::text::{comes_before, text_before, text_order_is_total, text_order_is_transitive};

verus! {

/// A JSON number. Integers keep their sign class; a fractional or exponent
/// number is held by the bits of its double-precision value.
#[derive(Clone, Copy, Debug, PartialEq, Eq, Structural)]
pub enum Number {
    Unsigned(u64),
    Negative(i64),
    Float(u64),
}

/// A JSON value. Object members are kept in key order.
#[derive(Debug)]
pub enum JsonValue {
    Null,
    Bool(bool),
    Number(Number),
    String(String),
    Array(Vec<JsonValue>),
    Object(Vec<Member>),
}

/// One member of a JSON object.
#[derive(Debug)]
pub struct Member {
    pub key: String,
    pub value: JsonValue,
}

/// The mathematical model of a JSON value.
#[verifier::ext_equal]
pub enum Json {
    Null,
    Bool(bool),
    Number(Number),
    String(Seq<char>),
    Array(Seq<Json>),
    Object(Seq<(Seq<char>, Json)>),
}

/// The model of one value.
pub open spec fn json_of(value: JsonValue) -> Json
    decreases value,
{
    match value {
        JsonValue::Null => Json::Null,
        JsonValue::Bool(flag) => Json::Bool(flag),
        JsonValue::Number(number) => Json::Number(number),
        JsonValue::String(text) => Json::String(text@),
        JsonValue::Array(values) => Json::Array(
            Seq::new(
                values@.len(),
                |i: int|
                    if 0 <= i < values@.len() {
                        json_of(values@[i])
                    } else {
                        Json::Null
                    },
            ),
        ),
        JsonValue::Object(members) => Json::Object(
            Seq::new(
                members@.len(),
                |i: int|
                    if 0 <= i < members@.len() {
                        (members@[i].key@, json_of(members@[i].value))
                    } else {
                        (Seq::empty(), Json::Null)
                    },
            ),
        ),
    }
}

impl View for JsonValue {
    type V = Json;

    open spec fn view(&self) -> Json {
        json_of(*self)
    }
}

/// The models of a list of values.
pub open spec fn json_list(values: Seq<JsonValue>) -> Seq<Json> {
    Seq::new(values.len(), |i: int| values[i]@)
}

/// The models of a list of members.
pub open spec fn json_members(members: Seq<Member>) -> Seq<(Seq<char>, Json)> {
    Seq::new(members.len(), |i: int| (members[i].key@, members[i].value@))
}

/// The model of an array lists the models of its values.
pub proof fn lemma_array_view(value: JsonValue)
    ensures
        value matches JsonValue::Array(values) ==> value@ == Json::Array(json_list(values@)),
        value matches JsonValue::Object(members) ==> value@ == Json::Object(json_members(members@)),
{
    match value {
        JsonValue::Array(values) => {
            assert(value@->Array_0 =~= json_list(values@));
        },
        JsonValue::Object(members) => {
            assert(value@->Object_0 =~= json_members(members@));
        },
        _ => {},
    }
}

impl Clone for JsonValue {
    fn clone(&self) -> (result: Self)
        ensures
            result@ == self@,
        decreases *self,
    {
        proof {
            lemma_array_view(*self);
        }
        match self {
            JsonValue::Null => JsonValue::Null,
            JsonValue::Bool(flag) => JsonValue::Bool(*flag),
            JsonValue::Number(number) => JsonValue::Number(*number),
            JsonValue::String(text) => JsonValue::String(text.clone()),
            JsonValue::Array(values) => {
                let mut copies: Vec<JsonValue> = Vec::new();
                let mut i: usize = 0;
                while i < values.len()
                    invariant
                        i <= values@.len(),
                        copies@.len() == i,
                        decreases_to!(*self => values@),
                        forall|j: int| 0 <= j < i ==> (#[trigger] copies@[j])@ == values@[j]@,
                    decreases values@.len() - i,
                {
                    copies.push(values[i].clone());
                    i += 1;
                }
                let result = JsonValue::Array(copies);
                proof {
                    lemma_array_view(result);
                    assert(json_list(copies@) =~= json_list(values@));
                }
                result
            },
            JsonValue::Object(members) => {
                let mut copies: Vec<Member> = Vec::new();
                let mut i: usize = 0;
                while i < members.len()
                    invariant
                        i <= members@.len(),
                        copies@.len() == i,
                        decreases_to!(*self => members@),
                        forall|j: int|
                            0 <= j < i ==> (#[trigger] copies@[j]).key@ == members@[j].key@
                                && copies@[j].value@ == members@[j].value@,
                    decreases members@.len() - i,
                {
                    let copy = Member {
                        key: members[i].key.clone(),
                        value: members[i].value.clone(),
                    };
                    copies.push(copy);
                    i += 1;
                }
                let result = JsonValue::Object(copies);
                proof {
                    lemma_array_view(result);
                    assert(json_members(copies@) =~= json_members(members@));
                }
                result
            },
        }
    }
}

/// Copies a list of values.
pub fn clone_values(values: &Vec<JsonValue>) -> (result: Vec<JsonValue>)
    ensures
        json_list(result@) == json_list(values@),
{
    let mut copies: Vec<JsonValue> = Vec::new();
    let mut i: usize = 0;
    while i < values.len()
        invariant
            i <= values@.len(),
            copies@.len() == i,
            forall|j: int| 0 <= j < i ==> (#[trigger] copies@[j])@ == values@[j]@,
        decreases values@.len() - i,
    {
        copies.push(values[i].clone());
        i += 1;
    }
    assert(json_list(copies@) =~= json_list(values@));
    copies
}

/// Number equality: integers by value, doubles as IEEE equality has it, so the
/// two zeros are equal.
pub open spec fn same_number(left: Number, right: Number) -> bool {
    match (left, right) {
        (Number::Float(a), Number::Float(b)) => a == b || (is_zero_bits(a) && is_zero_bits(b)),
        _ => left == right,
    }
}

/// The bits of positive or negative zero.
pub open spec fn is_zero_bits(bits: u64) -> bool {
    bits == 0 || bits == 0x8000_0000_0000_0000
}

/// Deep JSON equality.
pub open spec fn same_json(left: Json, right: Json) -> bool
    decreases left,
{
    match (left, right) {
        (Json::Null, Json::Null) => true,
        (Json::Bool(a), Json::Bool(b)) => a == b,
        (Json::Number(a), Json::Number(b)) => same_number(a, b),
        (Json::String(a), Json::String(b)) => a == b,
        (Json::Array(a), Json::Array(b)) => a.len() == b.len() && forall|i: int|
            0 <= i < a.len() ==> same_json(#[trigger] a[i], b[i]),
        (Json::Object(a), Json::Object(b)) => a.len() == b.len() && forall|i: int|
            0 <= i < a.len() ==> (#[trigger] a[i]).0 == b[i].0 && same_json(a[i].1, b[i].1),
        _ => false,
    }
}

/// Whether two numbers are equal.
pub fn numbers_equal(left: Number, right: Number) -> (result: bool)
    ensures
        result == same_number(left, right),
{
    match (left, right) {
        (Number::Float(a), Number::Float(b)) => {
            let left_zero = a == 0 || a == 0x8000_0000_0000_0000;
            let right_zero = b == 0 || b == 0x8000_0000_0000_0000;
            a == b || (left_zero && right_zero)
        },
        _ => left == right,
    }
}

/// Whether two values are equal, member by member.
pub fn values_equal(left: &JsonValue, right: &JsonValue) -> (result: bool)
    ensures
        result == same_json(left@, right@),
    decreases *left,
{
    proof {
        lemma_array_view(*left);
        lemma_array_view(*right);
    }
    match (left, right) {
        (JsonValue::Null, JsonValue::Null) => true,
        (JsonValue::Bool(a), JsonValue::Bool(b)) => *a == *b,
        (JsonValue::Number(a), JsonValue::Number(b)) => numbers_equal(*a, *b),
        (JsonValue::String(a), JsonValue::String(b)) => *a == *b,
        (JsonValue::Array(a), JsonValue::Array(b)) => {
            if a.len() != b.len() {
                return false;
            }
            let mut i: usize = 0;
            while i < a.len()
                invariant
                    i <= a@.len(),
                    a@.len() == b@.len(),
                    decreases_to!(*left => a@),
                    forall|j: int| 0 <= j < i ==> same_json(#[trigger] json_list(a@)[j], json_list(b@)[j]),
                    left@ == Json::Array(json_list(a@)),
                    right@ == Json::Array(json_list(b@)),
                decreases a@.len() - i,
            {
                if !values_equal(&a[i], &b[i]) {
                    assert(!same_json(json_list(a@)[i as int], json_list(b@)[i as int]));
                    return false;
                }
                i += 1;
            }
            true
        },
        (JsonValue::Object(a), JsonValue::Object(b)) => {
            if a.len() != b.len() {
                return false;
            }
            let mut i: usize = 0;
            while i < a.len()
                invariant
                    i <= a@.len(),
                    a@.len() == b@.len(),
                    decreases_to!(*left => a@),
                    forall|j: int|
                        0 <= j < i ==> (#[trigger] json_members(a@)[j]).0 == json_members(b@)[j].0
                            && same_json(json_members(a@)[j].1, json_members(b@)[j].1),
                    left@ == Json::Object(json_members(a@)),
                    right@ == Json::Object(json_members(b@)),
                decreases a@.len() - i,
            {
                if a[i].key != b[i].key || !values_equal(&a[i].value, &b[i].value) {
                    assert(json_members(a@)[i as int].0 != json_members(b@)[i as int].0
                        || !same_json(json_members(a@)[i as int].1, json_members(b@)[i as int].1));
                    return false;
                }
                i += 1;
            }
            true
        },
        _ => false,
    }
}

impl PartialEq for JsonValue {
    fn eq(&self, other: &Self) -> (result: bool) {
        values_equal(self, other)
    }
}

impl vstd::std_specs::cmp::PartialEqSpecImpl for JsonValue {
    open spec fn obeys_eq_spec() -> bool {
        true
    }

    open spec fn eq_spec(&self, other: &Self) -> bool {
        same_json(self@, other@)
    }
}

impl PartialEq for Member {
    fn eq(&self, other: &Self) -> (result: bool) {
        self.key == other.key && values_equal(&self.value, &other.value)
    }
}

impl vstd::std_specs::cmp::PartialEqSpecImpl for Member {
    open spec fn obeys_eq_spec() -> bool {
        true
    }

    open spec fn eq_spec(&self, other: &Self) -> bool {
        self.key@ == other.key@ && same_json(self.value@, other.value@)
    }
}

/// The value of the first member named `key`.
pub open spec fn lookup<K, V>(members: Seq<(K, V)>, key: K) -> Option<V>
    decreases members.len(),
{
    if members.len() == 0 {
        None
    } else if members[0].0 == key {
        Some(members[0].1)
    } else {
        lookup(members.drop_first(), key)
    }
}

/// Finds the first member named `key`.
pub fn find_member(members: &Vec<Member>, key: &str) -> (result: Option<usize>)
    ensures
        match result {
            Some(i) => i < members@.len() && members@[i as int].key@ == key@ && lookup(
                json_members(members@),
                key@,
            ) == Some(members@[i as int].value@),
            None => lookup(json_members(members@), key@) is None,
        },
{
    let wanted = key.to_owned();
    let mut i: usize = 0;
    let ghost model = json_members(members@);
    assert(model.subrange(0, model.len() as int) =~= model);
    while i < members.len()
        invariant
            i <= members@.len(),
            model == json_members(members@),
            wanted@ == key@,
            lookup(model, key@) == lookup(model.subrange(i as int, model.len() as int), key@),
        decreases members@.len() - i,
    {
        let ghost rest = model.subrange(i as int, model.len() as int);
        assert(rest[0] == model[i as int]);
        assert(rest.drop_first() =~= model.subrange(i + 1, model.len() as int));
        if members[i].key == wanted {
            return Some(i);
        }
        i += 1;
    }
    None
}

/// The value of `key` in an object; nothing for any other value.
pub open spec fn property(value: Json, key: Seq<char>) -> Option<Json> {
    match value {
        Json::Object(members) => lookup(members, key),
        _ => None,
    }
}

impl JsonValue {
    /// The value of member `key`, when this is an object that has it.
    pub fn get(&self, key: &str) -> (result: Option<&JsonValue>)
        ensures
            match result {
                Some(value) => property(self@, key@) == Some(value@),
                None => property(self@, key@) is None,
            },
    {
        proof {
            lemma_array_view(*self);
        }
        match self {
            JsonValue::Object(members) => match find_member(members, key) {
                Some(i) => Some(&members[i].value),
                None => None,
            },
            _ => None,
        }
    }

    /// Whether this is an object.
    pub fn is_object(&self) -> (result: bool)
        ensures
            result == (self@ is Object),
    {
        match self {
            JsonValue::Object(_) => true,
            _ => false,
        }
    }

    /// Whether this is `null`.
    pub fn is_null(&self) -> (result: bool)
        ensures
            result == (self@ is Null),
    {
        match self {
            JsonValue::Null => true,
            _ => false,
        }
    }

    /// The text of a string value.
    pub fn as_str(&self) -> (result: Option<&str>)
        ensures
            match result {
                Some(text) => self@ == Json::String(text@),
                None => !(self@ is String),
            },
    {
        match self {
            JsonValue::String(text) => Some(text.as_str()),
            _ => None,
        }
    }

    /// The flag of a boolean value.
    pub fn as_bool(&self) -> (result: Option<bool>)
        ensures
            match result {
                Some(flag) => self@ == Json::Bool(flag),
                None => !(self@ is Bool),
            },
    {
        match self {
            JsonValue::Bool(flag) => Some(*flag),
            _ => None,
        }
    }
}

/// Object members after `key` is set to `value`: the member is replaced in
/// place, or put before the first member with a later key.
pub open spec fn with_member<V>(
    members: Seq<(Seq<char>, V)>,
    key: Seq<char>,
    value: V,
) -> Seq<(Seq<char>, V)>
    decreases members.len(),
{
    if members.len() == 0 {
        seq![(key, value)]
    } else if members[0].0 == key {
        seq![(key, value)] + members.drop_first()
    } else if text_before(key, members[0].0) {
        seq![(key, value)] + members
    } else {
        seq![members[0]] + with_member(members.drop_first(), key, value)
    }
}

/// Sets `key` to `value` among the members of an object.
pub fn set_member(members: &mut Vec<Member>, key: String, value: JsonValue)
    ensures
        json_members(final(members)@) == with_member(json_members(old(members)@), key@, value@),
{
    let ghost model = json_members(members@);
    let mut i: usize = 0;
    assert(model.subrange(0, model.len() as int) =~= model);
    assert(model.subrange(0, 0) =~= Seq::empty());
    assert(Seq::<(Seq<char>, Json)>::empty() + with_member(model, key@, value@) =~= with_member(
        model,
        key@,
        value@,
    ));
    while i < members.len()
        invariant
            i <= members@.len(),
            members@ == old(members)@,
            model == json_members(old(members)@),
            with_member(model, key@, value@) == model.subrange(0, i as int) + with_member(
                model.subrange(i as int, model.len() as int),
                key@,
                value@,
            ),
        decreases members@.len() - i,
    {
        let ghost rest = model.subrange(i as int, model.len() as int);
        assert(rest[0] == model[i as int]);
        assert(rest.drop_first() =~= model.subrange(i + 1, model.len() as int));
        if members[i].key == key {
            members[i].value = value;
            assert(json_members(members@) =~= model.subrange(0, i as int) + (seq![(key@, value@)]
                + rest.drop_first()));
            return;
        }
        if comes_before(key.as_str(), members[i].key.as_str()) {
            members.insert(i, Member { key, value });
            assert(json_members(members@) =~= model.subrange(0, i as int) + (seq![(key@, value@)]
                + rest));
            return;
        }
        assert(model.subrange(0, i + 1) =~= model.subrange(0, i as int) + seq![rest[0]]);
        assert(with_member(model, key@, value@) =~= model.subrange(0, i + 1) + with_member(
            rest.drop_first(),
            key@,
            value@,
        ));
        i += 1;
    }
    assert(model.subrange(i as int, model.len() as int) =~= Seq::empty());
    members.push(Member { key, value });
    assert(json_members(members@) =~= model.subrange(0, i as int) + seq![(key@, value@)]);
}

/// Object members are in strictly increasing key order.
pub open spec fn ordered<V>(members: Seq<(Seq<char>, V)>) -> bool {
    forall|i: int, j: int|
        0 <= i < j < members.len() ==> text_before(#[trigger] members[i].0, #[trigger] members[j].0)
}

/// A value in canonical form: every object in it is in key order.
pub open spec fn canonical(value: Json) -> bool
    decreases value,
{
    match value {
        Json::Array(values) => forall|i: int|
            0 <= i < values.len() ==> canonical(#[trigger] values[i]),
        Json::Object(members) => ordered(members) && forall|i: int|
            0 <= i < members.len() ==> canonical((#[trigger] members[i]).1),
        _ => true,
    }
}

/// Setting a member makes it readable under its key.
pub proof fn set_member_is_readable<V>(
    members: Seq<(Seq<char>, V)>,
    key: Seq<char>,
    value: V,
)
    ensures
        lookup(with_member(members, key, value), key) == Some(value),
    decreases members.len(),
{
    if members.len() > 0 {
        let result = with_member(members, key, value);
        if members[0].0 != key && !text_before(key, members[0].0) {
            set_member_is_readable(members.drop_first(), key, value);
            assert(result.drop_first() =~= with_member(members.drop_first(), key, value));
        }
    }
}

/// Setting a member leaves every other key as it was.
pub proof fn set_member_keeps_other_keys<V>(
    members: Seq<(Seq<char>, V)>,
    key: Seq<char>,
    value: V,
    other: Seq<char>,
)
    requires
        other != key,
    ensures
        lookup(with_member(members, key, value), other) == lookup(members, other),
    decreases members.len(),
{
    let result = with_member(members, key, value);
    if members.len() == 0 {
        assert(result.drop_first() =~= members);
        assert(lookup(result.drop_first(), other) == lookup(members, other));
    } else if members[0].0 == key {
        assert(result.drop_first() =~= members.drop_first());
    } else if text_before(key, members[0].0) {
        assert(result.drop_first() =~= members);
    } else {
        set_member_keeps_other_keys(members.drop_first(), key, value, other);
        assert(result.drop_first() =~= with_member(members.drop_first(), key, value));
    }
}

/// Every member of the result is the new one or one that was there.
proof fn with_member_sources<V>(members: Seq<(Seq<char>, V)>, key: Seq<char>, value: V, i: int)
    requires
        0 <= i < with_member(members, key, value).len(),
    ensures
        with_member(members, key, value)[i] == (key, value) || exists|j: int|
            0 <= j < members.len() && members[j] == with_member(members, key, value)[i],
    decreases members.len(),
{
    let result = with_member(members, key, value);
    if members.len() == 0 {
    } else if members[0].0 == key {
        if i > 0 {
            assert(members[i] == result[i]);
        }
    } else if text_before(key, members[0].0) {
        if i > 0 {
            assert(members[i - 1] == result[i]);
        }
    } else if i > 0 {
        let rest = members.drop_first();
        with_member_sources(rest, key, value, i - 1);
        assert(result[i] == with_member(rest, key, value)[i - 1]);
        if result[i] != (key, value) {
            let j = choose|j: int|
                0 <= j < rest.len() && rest[j] == with_member(rest, key, value)[i - 1];
            assert(members[j + 1] == result[i]);
        }
    } else {
        assert(members[0] == result[0]);
    }
}

/// Setting a member keeps the members in key order.
pub proof fn set_member_keeps_order<V>(members: Seq<(Seq<char>, V)>, key: Seq<char>, value: V)
    requires
        ordered(members),
    ensures
        ordered(with_member(members, key, value)),
    decreases members.len(),
{
    let result = with_member(members, key, value);
    if members.len() == 0 {
    } else if members[0].0 == key {
        assert forall|i: int, j: int| 0 <= i < j < result.len() implies text_before(
            #[trigger] result[i].0,
            #[trigger] result[j].0,
        ) by {
            assert(result[i].0 == members[i].0);
            assert(result[j].0 == members[j].0);
        }
    } else if text_before(key, members[0].0) {
        assert forall|i: int, j: int| 0 <= i < j < result.len() implies text_before(
            #[trigger] result[i].0,
            #[trigger] result[j].0,
        ) by {
            assert(result[j].0 == members[j - 1].0);
            if i == 0 {
                if j > 1 {
                    text_order_is_transitive(key, members[0].0, members[j - 1].0);
                }
            } else {
                assert(result[i].0 == members[i - 1].0);
            }
        }
    } else {
        let rest = members.drop_first();
        set_member_keeps_order(rest, key, value);
        let inner = with_member(rest, key, value);
        assert forall|i: int, j: int| 0 <= i < j < result.len() implies text_before(
            #[trigger] result[i].0,
            #[trigger] result[j].0,
        ) by {
            assert(result[j] == inner[j - 1]);
            if i == 0 {
                with_member_sources(rest, key, value, j - 1);
                if inner[j - 1] == (key, value) {
                    text_order_is_total(key, members[0].0);
                } else {
                    let k = choose|k: int| 0 <= k < rest.len() && rest[k] == inner[j - 1];
                    assert(members[k + 1] == inner[j - 1]);
                }
            } else {
                assert(result[i] == inner[i - 1]);
            }
        }
    }
}

/// Setting a canonical value in a canonical object gives a canonical object.
pub proof fn set_member_keeps_canonical_form(
    members: Seq<(Seq<char>, Json)>,
    key: Seq<char>,
    value: Json,
)
    requires
        canonical(Json::Object(members)),
        canonical(value),
    ensures
        canonical(Json::Object(with_member(members, key, value))),
{
    set_member_keeps_order(members, key, value);
    let result = with_member(members, key, value);
    assert forall|i: int| 0 <= i < result.len() implies canonical((#[trigger] result[i]).1) by {
        with_member_sources(members, key, value, i);
        if result[i] != (key, value) {
            let j = choose|j: int| 0 <= j < members.len() && members[j] == result[i];
            assert(canonical(members[j].1));
        }
    }
}

/// The first member with its key is the one found by the key.
pub proof fn member_is_found<K, V>(members: Seq<(K, V)>, i: int)
    requires
        0 <= i < members.len(),
        forall|j: int| 0 <= j < i ==> (#[trigger] members[j]).0 != members[i].0,
    ensures
        lookup(members, members[i].0) == Some(members[i].1),
    decreases i,
{
    if i > 0 {
        assert(members[0].0 != members[i].0);
        let rest = members.drop_first();
        assert forall|j: int| 0 <= j < i - 1 implies (#[trigger] rest[j]).0 != rest[i - 1].0 by {
            assert(rest[j] == members[j + 1]);
        }
        member_is_found(rest, i - 1);
    }
}

/// A value found by key is the value of some member.
pub proof fn lookup_finds_a_member<K, V>(members: Seq<(K, V)>, key: K)
    ensures
        lookup(members, key) matches Some(value) ==> exists|i: int|
            0 <= i < members.len() && (#[trigger] members[i]).0 == key && members[i].1 == value,
    decreases members.len(),
{
    if members.len() > 0 {
        if members[0].0 != key {
            let rest = members.drop_first();
            lookup_finds_a_member(rest, key);
            if lookup(rest, key) is Some {
                let i = choose|i: int|
                    0 <= i < rest.len() && (#[trigger] rest[i]).0 == key && rest[i].1 == lookup(
                        rest,
                        key,
                    )->Some_0;
                assert(members[i + 1] == rest[i]);
            }
        } else {
            assert(members[0].1 == lookup(members, key)->Some_0);
        }
    }
}

/// A property of an object is a smaller value.
pub proof fn properties_are_smaller(value: Json, key: Seq<char>)
    ensures
        property(value, key) matches Some(nested) ==> decreases_to!(value => nested),
{
    match value {
        Json::Object(members) => {
            lookup_finds_a_member(members, key);
            if lookup(members, key) is Some {
                let nested = lookup(members, key)->Some_0;
                let i = choose|i: int|
                    0 <= i < members.len() && (#[trigger] members[i]).0 == key && members[i].1
                        == nested;
                assert(decreases_to!(members => members[i]));
                assert(decreases_to!(members[i] => members[i].1));
            }
        },
        _ => {},
    }
}

impl JsonValue {
    /// The members of an object.
    pub fn as_object(&self) -> (result: Option<&Vec<Member>>)
        ensures
            match result {
                Some(members) => self@ == Json::Object(json_members(members@)),
                None => !(self@ is Object),
            },
    {
        proof {
            lemma_array_view(*self);
        }
        match self {
            JsonValue::Object(members) => Some(members),
            _ => None,
        }
    }

    /// The values of an array.
    pub fn as_array(&self) -> (result: Option<&Vec<JsonValue>>)
        ensures
            match result {
                Some(values) => self@ == Json::Array(json_list(values@)),
                None => !(self@ is Array),
            },
    {
        proof {
            lemma_array_view(*self);
        }
        match self {
            JsonValue::Array(values) => Some(values),
            _ => None,
        }
    }
}

}
