//! What configuration expressions evaluate to.

use vstd::prelude::*;

use crate::config::{
    coalesce_from, concat_from, expression_value, kept_variables, parsed_reference, projection,
    resolved, resolved_list, resolved_members, until_from, with_variable, Captured,
    ConfigExpression, ConfigScope, ScopeModel,
};
use crate::json::{json_members, lookup, same_json, Json};
use crate::text::text_list;

verus! {

/// The outcome is this truth value.
pub open spec fn is_truth(outcome: Result<Json, Seq<char>>, flag: bool) -> bool {
    outcome == Ok::<Json, Seq<char>>(Json::Bool(flag))
}

/// The outcome is a truth value.
pub open spec fn is_boolean(outcome: Result<Json, Seq<char>>) -> bool {
    is_truth(outcome, true) || is_truth(outcome, false)
}

/// A negation gives the other truth value, and fails for anything that is none.
pub proof fn negation_flips(operand: ConfigExpression, not: ConfigExpression, scope: ScopeModel)
    requires
        not is Not,
        *not->Not_value == operand,
    ensures
        is_truth(expression_value(not, scope), true) <==> is_truth(
            expression_value(operand, scope),
            false,
        ),
        is_truth(expression_value(not, scope), false) <==> is_truth(
            expression_value(operand, scope),
            true,
        ),
        expression_value(operand, scope) matches Err(message) ==> expression_value(not, scope)
            == Err::<Json, Seq<char>>(message),
        !is_boolean(expression_value(operand, scope)) ==> expression_value(not, scope) is Err,
{
}

/// A double negation evaluates as what it negates, for every operand that is a
/// truth value.
pub proof fn double_negation_is_nothing(
    operand: ConfigExpression,
    not: ConfigExpression,
    again: ConfigExpression,
    scope: ScopeModel,
)
    requires
        not is Not,
        *not->Not_value == operand,
        again is Not,
        *again->Not_value == not,
        is_boolean(expression_value(operand, scope)),
    ensures
        expression_value(again, scope) == expression_value(operand, scope),
{
    negation_flips(operand, not, scope);
    negation_flips(not, again, scope);
}

/// Operand `i` decides: it is not `usual`, and all before it are.
pub open spec fn decides(
    values: Seq<ConfigExpression>,
    usual: bool,
    scope: ScopeModel,
    i: int,
) -> bool {
    &&& 0 <= i < values.len()
    &&& !is_truth(expression_value(values[i], scope), usual)
    &&& forall|j: int|
        0 <= j < i ==> is_truth(expression_value(#[trigger] values[j], scope), usual)
}

proof fn operands_decide(
    values: Seq<ConfigExpression>,
    from: int,
    wanted: bool,
    scope: ScopeModel,
) -> (at: int)
    requires
        0 <= from <= values.len(),
        forall|j: int|
            0 <= j < from ==> is_truth(expression_value(#[trigger] values[j], scope), !wanted),
    ensures
        from <= at <= values.len(),
        at < values.len() ==> decides(values, !wanted, scope, at) && (match expression_value(
            values[at],
            scope,
        ) {
            Err(message) => until_from(values, from, wanted, scope) == Err::<Json, Seq<char>>(
                message,
            ),
            Ok(value) => if value is Bool {
                is_truth(until_from(values, from, wanted, scope), wanted)
            } else {
                until_from(values, from, wanted, scope) is Err
            },
        }),
        at == values.len() ==> is_truth(until_from(values, from, wanted, scope), !wanted) && (
        forall|j: int|
            0 <= j < values.len() ==> is_truth(
                expression_value(#[trigger] values[j], scope),
                !wanted,
            )),
    decreases values.len() - from,
{
    if from >= values.len() {
        from
    } else if is_truth(expression_value(values[from], scope), !wanted) {
        operands_decide(values, from + 1, wanted, scope)
    } else {
        from
    }
}

/// A conjunction is true exactly if all operands are. It is false exactly if
/// one is false and all before it are true, so that what comes after does not
/// matter, and it fails exactly if the first operand that is not true is no
/// truth value.
pub proof fn conjunctions_need_all(and: ConfigExpression, scope: ScopeModel)
    requires
        and is And,
    ensures
        ({
            let values = and->And_values@;
            let outcome = expression_value(and, scope);
            &&& is_truth(outcome, true) <==> forall|i: int|
                0 <= i < values.len() ==> is_truth(
                    expression_value(#[trigger] values[i], scope),
                    true,
                )
            &&& is_truth(outcome, false) <==> exists|i: int| #[trigger]
                decides(values, true, scope, i) && is_truth(
                    expression_value(values[i], scope),
                    false,
                )
            &&& outcome is Err <==> exists|i: int| #[trigger]
                decides(values, true, scope, i) && !is_boolean(expression_value(values[i], scope))
            &&& forall|i: int| #[trigger]
                decides(values, true, scope, i) ==> (expression_value(values[i], scope)
                    matches Err(message) ==> outcome == Err::<Json, Seq<char>>(message))
        }),
{
    let values = and->And_values@;
    let at = operands_decide(values, 0, false, scope);
    only_one_decides(values, true, scope, at);
}

/// A disjunction is false exactly if all operands are. It is true exactly if
/// one is true and all before it are false, and it fails exactly if the first
/// operand that is not false is no truth value.
pub proof fn disjunctions_need_one(or: ConfigExpression, scope: ScopeModel)
    requires
        or is Or,
    ensures
        ({
            let values = or->Or_values@;
            let outcome = expression_value(or, scope);
            &&& is_truth(outcome, false) <==> forall|i: int|
                0 <= i < values.len() ==> is_truth(
                    expression_value(#[trigger] values[i], scope),
                    false,
                )
            &&& is_truth(outcome, true) <==> exists|i: int| #[trigger]
                decides(values, false, scope, i) && is_truth(
                    expression_value(values[i], scope),
                    true,
                )
            &&& outcome is Err <==> exists|i: int| #[trigger]
                decides(values, false, scope, i) && !is_boolean(expression_value(values[i], scope))
            &&& forall|i: int| #[trigger]
                decides(values, false, scope, i) ==> (expression_value(values[i], scope)
                    matches Err(message) ==> outcome == Err::<Json, Seq<char>>(message))
        }),
{
    let values = or->Or_values@;
    let at = operands_decide(values, 0, true, scope);
    only_one_decides(values, false, scope, at);
}

proof fn only_one_decides(
    values: Seq<ConfigExpression>,
    usual: bool,
    scope: ScopeModel,
    at: int,
)
    requires
        0 <= at <= values.len(),
        forall|j: int| 0 <= j < at ==> is_truth(expression_value(#[trigger] values[j], scope), usual),
        at < values.len() ==> decides(values, usual, scope, at),
    ensures
        forall|i: int| #[trigger] decides(values, usual, scope, i) ==> i == at,
{
    assert forall|i: int| #[trigger] decides(values, usual, scope, i) implies i == at by {
        if i > at {
            assert(is_truth(expression_value(values[at], scope), usual));
        } else if i < at {
            assert(is_truth(expression_value(values[i], scope), usual));
        }
    }
}

/// The operands of a conjunction or disjunction.
pub open spec fn operands(whole: ConfigExpression) -> Seq<ConfigExpression> {
    match whole {
        ConfigExpression::And { values } => values@,
        ConfigExpression::Or { values } => values@,
        _ => Seq::empty(),
    }
}

/// The negation of a conjunction agrees with the disjunction of the negations,
/// and the other way round, on every scope.
pub proof fn negation_swaps_conjunction_and_disjunction(
    whole: ConfigExpression,
    not: ConfigExpression,
    swapped: ConfigExpression,
    scope: ScopeModel,
)
    requires
        not is Not,
        *not->Not_value == whole,
        whole is And && swapped is Or || whole is Or && swapped is And,
        operands(whole).len() == operands(swapped).len(),
        forall|i: int|
            0 <= i < operands(whole).len() ==> (#[trigger] operands(swapped)[i]) is Not
                && *operands(swapped)[i]->Not_value == operands(whole)[i],
    ensures
        is_truth(expression_value(not, scope), true) <==> is_truth(
            expression_value(swapped, scope),
            true,
        ),
        is_truth(expression_value(not, scope), false) <==> is_truth(
            expression_value(swapped, scope),
            false,
        ),
        expression_value(not, scope) is Err <==> expression_value(swapped, scope) is Err,
{
    let values = operands(whole);
    let nots = operands(swapped);
    let usual = whole is And;
    let at = operands_decide(values, 0, !usual, scope);
    let to = operands_decide(nots, 0, usual, scope);
    negation_flips(whole, not, scope);
    assert forall|i: int| 0 <= i < values.len() implies (is_truth(
        expression_value(values[i], scope),
        usual,
    ) <==> is_truth(expression_value(#[trigger] nots[i], scope), !usual)) by {
        negation_flips(values[i], nots[i], scope);
    }
    if at < to {
        assert(is_truth(expression_value(nots[at], scope), !usual));
    } else if to < at {
        assert(is_truth(expression_value(values[to], scope), usual));
        assert(is_truth(expression_value(nots[to], scope), !usual));
    }
    if at < values.len() {
        negation_flips(values[at], nots[at], scope);
    }
}

/// Two expressions that evaluate are equal exactly if their values are, in
/// either order; one that fails fails the comparison.
pub proof fn comparisons_compare_values(
    equals: ConfigExpression,
    turned: ConfigExpression,
    scope: ScopeModel,
)
    requires
        equals is Equals,
        turned is Equals,
        turned->left == equals->right,
        turned->right == equals->left,
    ensures
        ({
            let left = expression_value(*equals->left, scope);
            let right = expression_value(*equals->right, scope);
            let outcome = expression_value(equals, scope);
            &&& left is Ok && right is Ok ==> is_boolean(outcome) && (is_truth(outcome, true)
                <==> same_json(left->Ok_0, right->Ok_0)) && outcome == expression_value(
                turned,
                scope,
            )
            &&& left is Ok && left == right ==> is_truth(outcome, true)
            &&& left is Err ==> outcome == left
            &&& left is Ok && right is Err ==> outcome == right
        }),
{
    let left = expression_value(*equals->left, scope);
    let right = expression_value(*equals->right, scope);
    if left is Ok && right is Ok {
        crate::json_laws::equality_is_symmetric(left->Ok_0, right->Ok_0);
        crate::json_laws::equal_values_are_the_same(left->Ok_0, right->Ok_0);
    }
}

proof fn coalescing_takes_the_first(
    values: Seq<ConfigExpression>,
    from: int,
    scope: ScopeModel,
) -> (at: int)
    requires
        0 <= from <= values.len(),
    ensures
        from <= at <= values.len(),
        forall|j: int|
            from <= j < at ==> expression_value(#[trigger] values[j], scope) == Ok::<
                Json,
                Seq<char>,
            >(Json::Null),
        at < values.len() ==> expression_value(values[at], scope) != Ok::<Json, Seq<char>>(
            Json::Null,
        ) && coalesce_from(values, from, scope) == expression_value(values[at], scope),
        at == values.len() ==> coalesce_from(values, from, scope) == Ok::<Json, Seq<char>>(
            Json::Null,
        ),
    decreases values.len() - from,
{
    if from < values.len() && expression_value(values[from], scope) == Ok::<Json, Seq<char>>(
        Json::Null,
    ) {
        coalescing_takes_the_first(values, from + 1, scope)
    } else {
        from
    }
}

/// A choice gives the first operand that is not null, be it a value or a
/// failure, and null when all are.
pub proof fn choices_give_the_first_that_is_not_null(
    choice: ConfigExpression,
    scope: ScopeModel,
) -> (at: int)
    requires
        choice is Coalesce,
    ensures
        ({
            let values = choice->Coalesce_values@;
            &&& 0 <= at <= values.len()
            &&& forall|j: int|
                0 <= j < at ==> expression_value(#[trigger] values[j], scope) == Ok::<
                    Json,
                    Seq<char>,
                >(Json::Null)
            &&& at < values.len() ==> expression_value(values[at], scope) != Ok::<Json, Seq<char>>(
                Json::Null,
            ) && expression_value(choice, scope) == expression_value(values[at], scope)
            &&& at == values.len() ==> expression_value(choice, scope) == Ok::<Json, Seq<char>>(
                Json::Null,
            )
        }),
{
    coalescing_takes_the_first(choice->Coalesce_values@, 0, scope)
}

proof fn texts_are_joined(
    values: Seq<ConfigExpression>,
    from: int,
    scope: ScopeModel,
    texts: Seq<Seq<char>>,
)
    requires
        0 <= from <= values.len(),
        texts.len() == values.len() - from,
        forall|i: int|
            0 <= i < texts.len() ==> expression_value(values[from + i], scope) == Ok::<
                Json,
                Seq<char>,
            >(Json::String(#[trigger] texts[i])),
    ensures
        concat_from(values, from, scope) == Ok::<Seq<char>, Seq<char>>(texts.flatten()),
    decreases values.len() - from,
{
    if from < values.len() {
        let rest = texts.drop_first();
        assert forall|i: int| 0 <= i < rest.len() implies expression_value(
            values[from + 1 + i],
            scope,
        ) == Ok::<Json, Seq<char>>(Json::String(#[trigger] rest[i])) by {
            assert(rest[i] == texts[i + 1]);
            assert(values[from + (i + 1)] == values[from + 1 + i]);
        }
        texts_are_joined(values, from + 1, scope, rest);
        assert(texts[0] == texts.first());
        assert(values[from + 0] == values[from]);
        assert(texts.flatten() =~= texts.first() + rest.flatten());
    } else {
        assert(texts.flatten() =~= Seq::empty());
    }
}

proof fn joining_needs_texts(values: Seq<ConfigExpression>, from: int, scope: ScopeModel)
    requires
        0 <= from <= values.len(),
    ensures
        concat_from(values, from, scope) is Ok <==> forall|i: int|
            from <= i < values.len() ==> (expression_value(#[trigger] values[i], scope) matches Ok(
                value,
            ) && value is String),
    decreases values.len() - from,
{
    if from < values.len() {
        joining_needs_texts(values, from + 1, scope);
    }
}

/// A concatenation of texts is those texts one after the other, and it fails
/// exactly if one of its operands is no text.
pub proof fn concatenations_join_texts(
    concat: ConfigExpression,
    scope: ScopeModel,
    texts: Seq<Seq<char>>,
)
    requires
        concat is Concat,
    ensures
        ({
            let values = concat->Concat_values@;
            &&& texts.len() == values.len() && (forall|i: int|
                0 <= i < texts.len() ==> expression_value(values[i], scope) == Ok::<
                    Json,
                    Seq<char>,
                >(Json::String(#[trigger] texts[i]))) ==> expression_value(concat, scope) == Ok::<
                Json,
                Seq<char>,
            >(Json::String(texts.flatten()))
            &&& expression_value(concat, scope) is Err <==> exists|i: int|
                0 <= i < values.len() && !(expression_value(#[trigger] values[i], scope)
                    matches Ok(value) && value is String)
        }),
{
    let values = concat->Concat_values@;
    if texts.len() == values.len() && (forall|i: int|
        0 <= i < texts.len() ==> expression_value(values[i], scope) == Ok::<Json, Seq<char>>(
            Json::String(#[trigger] texts[i]),
        )) {
        assert forall|i: int| 0 <= i < texts.len() implies expression_value(values[0 + i], scope)
            == Ok::<Json, Seq<char>>(Json::String(#[trigger] texts[i])) by {
            assert(values[0 + i] == values[i]);
        }
        texts_are_joined(values, 0, scope, texts);
    }
    joining_needs_texts(values, 0, scope);
}

/// A literal stands for itself, if it is a text, a truth value or null; nothing
/// else can be one.
pub proof fn literals_stand_for_themselves(literal: ConfigExpression, scope: ScopeModel)
    requires
        literal is Literal,
    ensures
        ({
            let value = literal->Literal_value@;
            if value is String || value is Bool || value is Null {
                expression_value(literal, scope) == Ok::<Json, Seq<char>>(value)
            } else {
                expression_value(literal, scope) is Err
            }
        }),
{
}

/// References give what the scope declares, under their own name: the platform,
/// the architecture, a variable as a text, a profile, or a service; and they
/// fail for what it does not declare.
pub proof fn references_give_what_is_declared(
    expression: ConfigExpression,
    scope: ConfigScope,
)
    ensures
        expression is Platform ==> expression_value(expression, scope@) == Ok::<Json, Seq<char>>(
            Json::String(scope.platform@),
        ),
        expression is Architecture ==> expression_value(expression, scope@) == Ok::<
            Json,
            Seq<char>,
        >(Json::String(scope.architecture@)),
        expression matches ConfigExpression::Env { name } ==> {
            &&& expression_value(expression, scope@) is Ok <==> exists|i: int|
                0 <= i < scope.environment@.len() && (#[trigger] scope.environment@[i]).name@
                    == name@
            &&& forall|i: int|
                0 <= i < scope.environment@.len() && (#[trigger] scope.environment@[i]).name@
                    == name@ && (forall|j: int|
                    0 <= j < i ==> (#[trigger] scope.environment@[j]).name@ != name@)
                    ==> expression_value(expression, scope@) == Ok::<Json, Seq<char>>(
                    Json::String(scope.environment@[i].value@),
                )
        },
        expression matches ConfigExpression::Profile { name } ==> {
            &&& expression_value(expression, scope@) is Ok <==> exists|i: int|
                0 <= i < scope.profiles@.len() && (#[trigger] scope.profiles@[i]).key@ == name@
            &&& forall|i: int|
                0 <= i < scope.profiles@.len() && (#[trigger] scope.profiles@[i]).key@ == name@ && (
                forall|j: int| 0 <= j < i ==> (#[trigger] scope.profiles@[j]).key@ != name@)
                    ==> expression_value(expression, scope@) == Ok::<Json, Seq<char>>(
                    scope.profiles@[i].value@,
                )
        },
        expression matches ConfigExpression::Service { name, path } ==> {
            &&& forall|i: int|
                0 <= i < scope.services@.len() && (#[trigger] scope.services@[i]).key@ == name@ && (
                forall|j: int| 0 <= j < i ==> (#[trigger] scope.services@[j]).key@ != name@) ==> (
                match expression_value(expression, scope@) {
                    Ok(value) => leads_to(scope.services@[i].value@, text_list(path@), value),
                    Err(_) => forall|value: Json|
                        !leads_to(scope.services@[i].value@, text_list(path@), value),
                })
            &&& (forall|i: int|
                0 <= i < scope.services@.len() ==> (#[trigger] scope.services@[i]).key@ != name@)
                ==> expression_value(expression, scope@) is Err
        },
{
    let environment = crate::config::variables(scope.environment@);
    let profiles = json_members(scope.profiles@);
    let services = json_members(scope.services@);
    match expression {
        ConfigExpression::Env { name } => {
            crate::json_laws::lookups_find_the_first_member(environment, name@);
            if lookup(environment, name@) is Some {
                let i = choose|i: int|
                    0 <= i < environment.len() && (#[trigger] environment[i]).0 == name@;
                assert(scope.environment@[i].name@ == name@);
            }
            assert forall|i: int|
                0 <= i < scope.environment@.len() && (#[trigger] scope.environment@[i]).name@
                    == name@ && (forall|j: int|
                    0 <= j < i ==> (#[trigger] scope.environment@[j]).name@
                        != name@) implies lookup(environment, name@) == Some(
                scope.environment@[i].value@,
            ) by {
                assert(environment[i] == (name@, scope.environment@[i].value@));
                assert forall|j: int| 0 <= j < i implies (#[trigger] environment[j]).0
                    != environment[i].0 by {
                    assert(scope.environment@[j].name@ != name@);
                }
                crate::json::member_is_found(environment, i);
            }
            if exists|i: int|
                0 <= i < scope.environment@.len() && (#[trigger] scope.environment@[i]).name@
                    == name@ {
                let i = choose|i: int|
                    0 <= i < scope.environment@.len() && (#[trigger] scope.environment@[i]).name@
                        == name@;
                assert(environment[i].0 == name@);
            }
        },
        ConfigExpression::Profile { name } => {
            declared_members(scope.profiles@, name@);
        },
        ConfigExpression::Service { name, path } => {
            declared_members(scope.services@, name@);
            assert forall|i: int|
                0 <= i < scope.services@.len() && (#[trigger] scope.services@[i]).key@ == name@ && (
                forall|j: int|
                    0 <= j < i ==> (#[trigger] scope.services@[j]).key@ != name@) implies (
            match expression_value(expression, scope@) {
                Ok(value) => leads_to(scope.services@[i].value@, text_list(path@), value),
                Err(_) => forall|value: Json|
                    !leads_to(scope.services@[i].value@, text_list(path@), value),
            }) by {
                paths_lead(name@, scope.services@[i].value@, text_list(path@));
            }
        },
        _ => {},
    }
}

/// Following the members named by the path leads to that value.
pub open spec fn leads_to(value: Json, path: Seq<Seq<char>>, end: Json) -> bool
    decreases path.len(),
{
    if path.len() == 0 {
        end == value
    } else {
        value matches Json::Object(members) && exists|i: int|
            0 <= i < members.len() && (#[trigger] members[i]).0 == path.first() && (forall|j: int|
                0 <= j < i ==> (#[trigger] members[j]).0 != path.first()) && leads_to(
                members[i].1,
                path.drop_first(),
                end,
            )
    }
}

proof fn paths_lead(name: Seq<char>, value: Json, path: Seq<Seq<char>>)
    ensures
        match projection(name, value, path) {
            Ok(end) => leads_to(value, path, end),
            Err(_) => forall|end: Json| !leads_to(value, path, end),
        },
    decreases path.len(),
{
    if path.len() > 0 {
        match value {
            Json::Object(members) => {
                crate::json_laws::lookups_find_the_first_member(members, path[0]);
                match lookup(members, path[0]) {
                    Some(next) => {
                        paths_lead(name, next, path.drop_first());
                        let i = choose|i: int|
                            0 <= i < members.len() && (#[trigger] members[i]) == (path[0], next)
                                && forall|j: int|
                                0 <= j < i ==> (#[trigger] members[j]).0 != path[0];
                        assert(members[i].0 == path.first());
                        assert forall|end: Json| leads_to(value, path, end) implies leads_to(
                            next,
                            path.drop_first(),
                            end,
                        ) by {
                            let k = choose|k: int|
                                0 <= k < members.len() && (#[trigger] members[k]).0 == path.first()
                                    && (forall|j: int|
                                    0 <= j < k ==> (#[trigger] members[j]).0 != path.first())
                                    && leads_to(members[k].1, path.drop_first(), end);
                            if k > i {
                                assert(members[i].0 != path.first());
                            } else if k < i {
                                assert(members[k].0 != path[0]);
                            }
                        }
                        if projection(name, value, path) is Ok {
                            let end = projection(name, value, path)->Ok_0;
                            assert(leads_to(members[i].1, path.drop_first(), end));
                            assert(leads_to(value, path, end));
                        }
                    },
                    None => {},
                }
            },
            _ => {},
        }
    }
}

proof fn declared_members(members: Seq<crate::json::Member>, name: Seq<char>)
    ensures
        lookup(json_members(members), name) is Some <==> exists|i: int|
            0 <= i < members.len() && (#[trigger] members[i]).key@ == name,
        forall|i: int|
            0 <= i < members.len() && (#[trigger] members[i]).key@ == name && (forall|j: int|
                0 <= j < i ==> (#[trigger] members[j]).key@ != name) ==> lookup(
                json_members(members),
                name,
            ) == Some(members[i].value@),
{
    let model = json_members(members);
    crate::json_laws::lookups_find_the_first_member(model, name);
    if lookup(model, name) is Some {
        let i = choose|i: int| 0 <= i < model.len() && (#[trigger] model[i]).0 == name;
        assert(members[i].key@ == name);
    }
    if exists|i: int| 0 <= i < members.len() && (#[trigger] members[i]).key@ == name {
        let i = choose|i: int| 0 <= i < members.len() && (#[trigger] members[i]).key@ == name;
        assert(model[i].0 == name);
    }
    assert forall|i: int|
        0 <= i < members.len() && (#[trigger] members[i]).key@ == name && (forall|j: int|
            0 <= j < i ==> (#[trigger] members[j]).key@ != name) implies lookup(model, name)
        == Some(members[i].value@) by {
        assert(model[i] == (name, members[i].value@));
        assert forall|j: int| 0 <= j < i implies (#[trigger] model[j]).0 != model[i].0 by {
            assert(members[j].key@ != name);
        }
        crate::json::member_is_found(model, i);
    }
}

/// Resolving a configuration keeps its shape: a list or an object is resolved
/// part by part, in place and under the same keys, and fails as its first part
/// that fails; whatever is neither stays as it is.
pub proof fn resolution_works_part_by_part(value: Json, scope: ScopeModel)
    ensures
        match value {
            Json::Array(values) => match resolved(value, scope) {
                Ok(result) => result matches Json::Array(list) && list.len() == values.len()
                    && forall|i: int|
                    0 <= i < values.len() ==> resolved(values[i], scope) == Ok::<Json, Seq<char>>(
                        #[trigger] list[i],
                    ),
                Err(message) => exists|i: int|
                    0 <= i < values.len() && resolved(#[trigger] values[i], scope) == Err::<
                        Json,
                        Seq<char>,
                    >(message) && forall|j: int|
                        0 <= j < i ==> resolved(#[trigger] values[j], scope) is Ok,
            },
            Json::Object(members) => lookup(members, "$expr"@) is None ==> if exists|i: int|
                0 <= i < members.len() && ((#[trigger] members[i]).0 == "$js"@ || members[i].0
                    == "!!js"@) {
                resolved(value, scope) is Err
            } else {
                match resolved(value, scope) {
                    Ok(result) => result matches Json::Object(list) && list.len() == members.len()
                        && forall|i: int|
                        0 <= i < members.len() ==> (#[trigger] list[i]).0 == members[i].0
                            && resolved(members[i].1, scope) == Ok::<Json, Seq<char>>(list[i].1),
                    Err(message) => exists|i: int|
                        0 <= i < members.len() && resolved((#[trigger] members[i]).1, scope)
                            == Err::<Json, Seq<char>>(message) && forall|j: int|
                            0 <= j < i ==> resolved((#[trigger] members[j]).1, scope) is Ok,
                }
            },
            _ => resolved(value, scope) == Ok::<Json, Seq<char>>(value),
        },
{
    match value {
        Json::Array(values) => list_resolves(values, 0, scope),
        Json::Object(members) => members_resolve(members, 0, scope),
        _ => {},
    }
}

proof fn list_resolves(values: Seq<Json>, from: int, scope: ScopeModel)
    requires
        0 <= from <= values.len(),
    ensures
        match resolved_list(values, from, scope) {
            Ok(list) => list.len() == values.len() - from && forall|i: int|
                0 <= i < list.len() ==> resolved(values[from + i], scope) == Ok::<Json, Seq<char>>(
                    #[trigger] list[i],
                ),
            Err(message) => exists|i: int|
                from <= i < values.len() && resolved(#[trigger] values[i], scope) == Err::<
                    Json,
                    Seq<char>,
                >(message) && forall|j: int|
                    from <= j < i ==> resolved(#[trigger] values[j], scope) is Ok,
        },
    decreases values.len() - from,
{
    if from < values.len() {
        list_resolves(values, from + 1, scope);
        match resolved(values[from], scope) {
            Err(message) => {
                assert(resolved(values[from], scope) == Err::<Json, Seq<char>>(message));
            },
            Ok(value) => match resolved_list(values, from + 1, scope) {
                Ok(rest) => {
                    let list = seq![value] + rest;
                    assert forall|i: int| 0 <= i < list.len() implies resolved(
                        values[from + i],
                        scope,
                    ) == Ok::<Json, Seq<char>>(#[trigger] list[i]) by {
                        if i > 0 {
                            assert(list[i] == rest[i - 1]);
                            assert(values[from + 1 + (i - 1)] == values[from + i]);
                        }
                    }
                },
                Err(message) => {
                    let i = choose|i: int|
                        from + 1 <= i < values.len() && resolved(#[trigger] values[i], scope)
                            == Err::<Json, Seq<char>>(message) && forall|j: int|
                            from + 1 <= j < i ==> resolved(#[trigger] values[j], scope) is Ok;
                    assert(resolved(values[i], scope) == Err::<Json, Seq<char>>(message));
                    assert forall|j: int| from <= j < i implies resolved(
                        #[trigger] values[j],
                        scope,
                    ) is Ok by {}
                },
            },
        }
    }
}

proof fn members_resolve(members: Seq<(Seq<char>, Json)>, from: int, scope: ScopeModel)
    requires
        0 <= from <= members.len(),
    ensures
        match resolved_members(members, from, scope) {
            Ok(list) => list.len() == members.len() - from && forall|i: int|
                0 <= i < list.len() ==> (#[trigger] list[i]).0 == members[from + i].0 && resolved(
                    members[from + i].1,
                    scope,
                ) == Ok::<Json, Seq<char>>(list[i].1),
            Err(message) => exists|i: int|
                from <= i < members.len() && resolved((#[trigger] members[i]).1, scope) == Err::<
                    Json,
                    Seq<char>,
                >(message) && forall|j: int|
                    from <= j < i ==> resolved((#[trigger] members[j]).1, scope) is Ok,
        },
    decreases members.len() - from,
{
    if from < members.len() {
        members_resolve(members, from + 1, scope);
        match resolved(members[from].1, scope) {
            Err(message) => {
                assert(resolved(members[from].1, scope) == Err::<Json, Seq<char>>(message));
            },
            Ok(value) => match resolved_members(members, from + 1, scope) {
                Ok(rest) => {
                    let list = seq![(members[from].0, value)] + rest;
                    assert forall|i: int| 0 <= i < list.len() implies (#[trigger] list[i]).0
                        == members[from + i].0 && resolved(members[from + i].1, scope) == Ok::<
                        Json,
                        Seq<char>,
                    >(list[i].1) by {
                        if i > 0 {
                            assert(list[i] == rest[i - 1]);
                            assert(members[from + 1 + (i - 1)] == members[from + i]);
                        }
                    }
                },
                Err(message) => {
                    let i = choose|i: int|
                        from + 1 <= i < members.len() && resolved((#[trigger] members[i]).1, scope)
                            == Err::<Json, Seq<char>>(message) && forall|j: int|
                            from + 1 <= j < i ==> resolved((#[trigger] members[j]).1, scope) is Ok;
                    assert(resolved(members[i].1, scope) == Err::<Json, Seq<char>>(message));
                    assert forall|j: int| from <= j < i implies resolved(
                        (#[trigger] members[j]).1,
                        scope,
                    ) is Ok by {}
                },
            },
        }
    }
}

/// An object that holds an expression and nothing else resolves as that
/// expression evaluates; with anything else beside it, or with an expression
/// that is no text, it is refused.
pub proof fn embedded_expressions_are_evaluated(
    members: Seq<(Seq<char>, Json)>,
    expression: ConfigExpression,
    text: Seq<char>,
    scope: ScopeModel,
)
    requires
        lookup(members, "$expr"@) is Some,
    ensures
        ({
            let outcome = resolved(Json::Object(members), scope);
            &&& members.len() != 1 ==> outcome is Err
            &&& !(lookup(members, "$expr"@)->0 is String) ==> outcome is Err
            &&& members.len() == 1 && lookup(members, "$expr"@) == Some(Json::String(text)) ==> (
            match parsed_reference(text) {
                Ok(reference) => crate::config::reference_of(expression) == Some(reference)
                    ==> outcome == expression_value(expression, scope),
                Err(message) => outcome == Err::<Json, Seq<char>>(message),
            })
        }),
{
}

/// A scope has exactly the variables that the host found for allowed names, and
/// of two values for one name the later.
pub proof fn only_captured_variables_are_declared(captured: Seq<Captured>, count: int, name: Seq<char>)
    requires
        0 <= count <= captured.len(),
    ensures
        ({
            let kept = kept_variables(captured, count);
            &&& lookup(kept, name) is None <==> (forall|i: int|
                0 <= i < count ==> (#[trigger] captured[i]).name@ != name || captured[i].value
                    is None)
            &&& forall|i: int|
                0 <= i < count && (#[trigger] captured[i]).name@ == name && captured[i].value is Some
                    && (forall|j: int|
                    i < j < count ==> (#[trigger] captured[j]).name@ != name || captured[j].value
                        is None) ==> lookup(kept, name) == Some(captured[i].value->0@)
        }),
    decreases count,
{
    if count > 0 {
        only_captured_variables_are_declared(captured, count - 1, name);
        let before = kept_variables(captured, count - 1);
        let last = captured[count - 1];
        match last.value {
            Some(value) => {
                set_variables_are_found(before, last.name@, value@, name);
                if last.name@ != name {
                    assert forall|i: int|
                        0 <= i < count && (#[trigger] captured[i]).name@ == name
                            && captured[i].value is Some && (forall|j: int|
                            i < j < count ==> (#[trigger] captured[j]).name@ != name
                                || captured[j].value is None) implies lookup(before, name) == Some(
                        captured[i].value->0@,
                    ) by {
                        assert(i < count - 1);
                    }
                }
            },
            None => {},
        }
    }
}

proof fn set_variables_are_found(
    kept: Seq<(Seq<char>, Seq<char>)>,
    name: Seq<char>,
    value: Seq<char>,
    other: Seq<char>,
)
    ensures
        lookup(with_variable(kept, name, value), name) == Some(value),
        other != name ==> lookup(with_variable(kept, name, value), other) == lookup(kept, other),
    decreases kept.len(),
{
    let result = with_variable(kept, name, value);
    if kept.len() == 0 {
        assert(result.drop_first() =~= kept);
        assert(lookup(result.drop_first(), other) == lookup(kept, other));
    } else if kept[0].0 == name {
        assert(result.drop_first() =~= kept.drop_first());
    } else {
        set_variables_are_found(kept.drop_first(), name, value, other);
        assert(result.drop_first() =~= with_variable(kept.drop_first(), name, value));
    }
}

}
