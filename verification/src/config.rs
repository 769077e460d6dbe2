//! The configuration language: reference expressions, their evaluation, and
//! the resolution of expressions embedded in a configuration value.

use vstd::prelude::*;
use vstd::string::*;

use crate::error::{LoaderError, LoaderFailure};
use crate::json::{
    find_member, json_list, json_members, lemma_array_view, lookup, property, same_json,
    values_equal, Json, Member, JsonValue,
};
use crate::text::{
    alphanumeric, characters, is_alphanumeric, join2, join3, pieces, pieces_are_never_empty,
    quoted, quoted_text, same_text, split, text_list,
};

verus! {

/// One captured environment variable.
#[derive(Debug, PartialEq, Eq)]
pub struct Variable {
    pub name: String,
    pub value: String,
}

/// The explicitly allowed inputs available to configuration expressions.
///
/// Values are supplied by the host; evaluating an expression never reads an
/// unapproved environment variable and never executes host code.
#[derive(Debug, PartialEq)]
pub struct ConfigScope {
    pub environment: Vec<Variable>,
    pub platform: String,
    pub architecture: String,
    pub profiles: Vec<Member>,
    pub services: Vec<Member>,
}

/// The model of a configuration scope.
#[verifier::ext_equal]
pub struct ScopeModel {
    pub environment: Seq<(Seq<char>, Seq<char>)>,
    pub platform: Seq<char>,
    pub architecture: Seq<char>,
    pub profiles: Seq<(Seq<char>, Json)>,
    pub services: Seq<(Seq<char>, Json)>,
}

/// The names and values of captured variables.
pub open spec fn variables(environment: Seq<Variable>) -> Seq<(Seq<char>, Seq<char>)> {
    Seq::new(environment.len(), |i: int| (environment[i].name@, environment[i].value@))
}

impl View for ConfigScope {
    type V = ScopeModel;

    open spec fn view(&self) -> ScopeModel {
        ScopeModel {
            environment: variables(self.environment@),
            platform: self.platform@,
            architecture: self.architecture@,
            profiles: json_members(self.profiles@),
            services: json_members(self.services@),
        }
    }
}

/// What the host found for one allowed variable name.
#[derive(Debug)]
pub struct Captured {
    pub name: String,
    pub value: Option<String>,
}

/// The variables kept from `captured[..count]`: those that the host has, each
/// name once, with the value captured last.
pub open spec fn kept_variables(captured: Seq<Captured>, count: int) -> Seq<
    (Seq<char>, Seq<char>),
>
    decreases count,
{
    if count <= 0 {
        Seq::empty()
    } else {
        let kept = kept_variables(captured, count - 1);
        match captured[count - 1].value {
            Some(value) => with_variable(kept, captured[count - 1].name@, value@),
            None => kept,
        }
    }
}

/// Variables after `name` is set: replaced in place, or added at the end.
pub open spec fn with_variable(
    kept: Seq<(Seq<char>, Seq<char>)>,
    name: Seq<char>,
    value: Seq<char>,
) -> Seq<(Seq<char>, Seq<char>)>
    decreases kept.len(),
{
    if kept.len() == 0 {
        seq![(name, value)]
    } else if kept[0].0 == name {
        seq![(name, value)] + kept.drop_first()
    } else {
        seq![kept[0]] + with_variable(kept.drop_first(), name, value)
    }
}

fn set_variable(environment: &mut Vec<Variable>, name: String, value: String)
    ensures
        variables(final(environment)@) == with_variable(
            variables(old(environment)@),
            name@,
            value@,
        ),
{
    let ghost model = variables(environment@);
    let mut i: usize = 0;
    assert(model.subrange(0, model.len() as int) =~= model);
    assert(model.subrange(0, 0) + with_variable(model, name@, value@) =~= with_variable(
        model,
        name@,
        value@,
    ));
    while i < environment.len()
        invariant
            i <= environment@.len(),
            environment@ == old(environment)@,
            model == variables(old(environment)@),
            with_variable(model, name@, value@) == model.subrange(0, i as int) + with_variable(
                model.subrange(i as int, model.len() as int),
                name@,
                value@,
            ),
        decreases environment@.len() - i,
    {
        let ghost rest = model.subrange(i as int, model.len() as int);
        assert(rest[0] == model[i as int]);
        assert(rest.drop_first() =~= model.subrange(i + 1, model.len() as int));
        if environment[i].name == name {
            environment[i].value = value;
            assert(variables(environment@) =~= model.subrange(0, i as int) + (seq![
                (name@, value@),
            ] + rest.drop_first()));
            return;
        }
        assert(model.subrange(0, i + 1) =~= model.subrange(0, i as int) + seq![rest[0]]);
        assert(with_variable(model, name@, value@) =~= model.subrange(0, i + 1) + with_variable(
            rest.drop_first(),
            name@,
            value@,
        ));
        i += 1;
    }
    assert(model.subrange(i as int, model.len() as int) =~= Seq::empty());
    environment.push(Variable { name, value });
    assert(variables(environment@) =~= model.subrange(0, i as int) + seq![(name@, value@)]);
}

fn find_variable(environment: &Vec<Variable>, name: &String) -> (result: Option<usize>)
    ensures
        match result {
            Some(i) => i < environment@.len() && lookup(variables(environment@), name@) == Some(
                environment@[i as int].value@,
            ),
            None => lookup(variables(environment@), name@) is None,
        },
{
    let ghost model = variables(environment@);
    let mut i: usize = 0;
    assert(model.subrange(0, model.len() as int) =~= model);
    while i < environment.len()
        invariant
            i <= environment@.len(),
            model == variables(environment@),
            lookup(model, name@) == lookup(model.subrange(i as int, model.len() as int), name@),
        decreases environment@.len() - i,
    {
        let ghost rest = model.subrange(i as int, model.len() as int);
        assert(rest[0] == model[i as int]);
        assert(rest.drop_first() =~= model.subrange(i + 1, model.len() as int));
        if environment[i].name == *name {
            return Some(i);
        }
        i += 1;
    }
    None
}

impl ConfigScope {
    /// A scope that declares only the platform and the architecture.
    pub fn new(platform: String, architecture: String) -> (result: Self)
        ensures
            result@ == (ScopeModel {
                environment: Seq::empty(),
                platform: platform@,
                architecture: architecture@,
                profiles: Seq::empty(),
                services: Seq::empty(),
            }),
    {
        let result = ConfigScope {
            environment: Vec::new(),
            platform,
            architecture,
            profiles: Vec::new(),
            services: Vec::new(),
        };
        assert(result@.environment =~= Seq::empty());
        assert(result@.profiles =~= Seq::empty());
        assert(result@.services =~= Seq::empty());
        result
    }

    /// Keeps the variables that the host captured for the allowed names.
    pub fn from_allowed_environment(
        captured: Vec<Captured>,
        platform: String,
        architecture: String,
    ) -> (result: Self)
        ensures
            result@ == (ScopeModel {
                environment: kept_variables(captured@, captured@.len() as int),
                platform: platform@,
                architecture: architecture@,
                profiles: Seq::empty(),
                services: Seq::empty(),
            }),
    {
        let mut environment: Vec<Variable> = Vec::new();
        let mut i: usize = 0;
        assert(variables(environment@) =~= Seq::empty());
        while i < captured.len()
            invariant
                i <= captured@.len(),
                variables(environment@) == kept_variables(captured@, i as int),
            decreases captured@.len() - i,
        {
            match &captured[i].value {
                Some(value) => {
                    set_variable(&mut environment, captured[i].name.clone(), value.clone());
                },
                None => {},
            }
            i += 1;
        }
        let mut result = ConfigScope::new(platform, architecture);
        result.environment = environment;
        assert(result@.environment =~= kept_variables(captured@, captured@.len() as int));
        result
    }
}

/// A small, auditable configuration language. It intentionally has no call,
/// property-evaluation, or arbitrary-language form.
#[derive(Debug, PartialEq)]
#[allow(inconsistent_fields)]
pub enum ConfigExpression {
    Literal { value: JsonValue },
    Env { name: String },
    Platform,
    Architecture,
    Profile { name: String },
    Service { name: String, path: Vec<String> },
    Concat { values: Vec<ConfigExpression> },
    Equals { left: Box<ConfigExpression>, right: Box<ConfigExpression> },
    Not { value: Box<ConfigExpression> },
    And { values: Vec<ConfigExpression> },
    Or { values: Vec<ConfigExpression> },
    Coalesce { values: Vec<ConfigExpression> },
}

/// The model of a reference: the part of the language that has a text form.
#[verifier::ext_equal]
pub enum Reference {
    Platform,
    Architecture,
    Env(Seq<char>),
    Profile(Seq<char>),
    Service(Seq<char>, Seq<Seq<char>>),
}

/// The reference that an expression is, if it is one.
pub open spec fn reference_of(expression: ConfigExpression) -> Option<Reference> {
    match expression {
        ConfigExpression::Platform => Some(Reference::Platform),
        ConfigExpression::Architecture => Some(Reference::Architecture),
        ConfigExpression::Env { name } => Some(Reference::Env(name@)),
        ConfigExpression::Profile { name } => Some(Reference::Profile(name@)),
        ConfigExpression::Service { name, path } => Some(
            Reference::Service(name@, text_list(path@)),
        ),
        _ => None,
    }
}

/// A segment of a reference: letters, digits, `_` and `-`, at least one.
pub open spec fn name_shape(text: Seq<char>) -> bool {
    text.len() > 0 && forall|i: int|
        0 <= i < text.len() ==> is_alphanumeric(#[trigger] text[i]) || text[i] == '_' || text[i]
            == '-'
}

/// Whether `text` can be a segment of a reference.
pub fn is_name(text: &str) -> (result: bool)
    ensures
        result == name_shape(text@),
{
    let chars = characters(text);
    let mut i: usize = 0;
    while i < chars.len()
        invariant
            i <= chars@.len(),
            chars@ == text@,
            forall|j: int|
                0 <= j < i ==> is_alphanumeric(#[trigger] text@[j]) || text@[j] == '_' || text@[j]
                    == '-',
        decreases chars@.len() - i,
    {
        let c = chars[i];
        if !(alphanumeric(c) || c == '_' || c == '-') {
            assert(!name_shape(text@)) by {
                let bad = text@[i as int];
            }
            return false;
        }
        i += 1;
    }
    chars.len() > 0
}

/// The reference inside an optional `${` ... `}`.
pub open spec fn unwrapped(source: Seq<char>) -> Seq<char> {
    if source.len() >= 3 && source[0] == '$' && source[1] == '{' && source.last() == '}' {
        source.subrange(2, source.len() - 1)
    } else {
        source
    }
}

/// Every segment but the first is a name.
pub open spec fn names_follow(parts: Seq<Seq<char>>) -> bool {
    forall|i: int| 1 <= i < parts.len() ==> name_shape(#[trigger] parts[i])
}

/// What a reference text means, or the message that refuses it. The grammar is
/// limited to `env.NAME`, `platform`, `architecture`, `profile.NAME`, and
/// `service.NAME.path`.
pub open spec fn parsed_reference(source: Seq<char>) -> Result<Reference, Seq<char>> {
    let text = unwrapped(source);
    let parts = pieces(text, '.');
    if text == "platform"@ {
        Ok(Reference::Platform)
    } else if text == "architecture"@ {
        Ok(Reference::Architecture)
    } else if !names_follow(parts) {
        Err("invalid expression "@ + quoted_text(text))
    } else if parts[0] == "env"@ && parts.len() == 2 {
        Ok(Reference::Env(parts[1]))
    } else if parts[0] == "profile"@ && parts.len() == 2 {
        Ok(Reference::Profile(parts[1]))
    } else if parts[0] == "service"@ && parts.len() >= 2 {
        Ok(Reference::Service(parts[1], parts.subrange(2, parts.len() as int)))
    } else {
        Err("unsupported expression "@ + quoted_text(text))
    }
}

/// A value that a literal may hold.
pub open spec fn is_scalar(value: Json) -> bool {
    value is String || value is Bool || value is Null
}

/// What a reference evaluates to.
pub open spec fn reference_value(reference: Reference, scope: ScopeModel) -> Result<
    Json,
    Seq<char>,
> {
    match reference {
        Reference::Platform => Ok(Json::String(scope.platform)),
        Reference::Architecture => Ok(Json::String(scope.architecture)),
        Reference::Env(name) => match lookup(scope.environment, name) {
            Some(value) => Ok(Json::String(value)),
            None => Err("environment variable "@ + quoted_text(name) + " is not allowed"@),
        },
        Reference::Profile(name) => match lookup(scope.profiles, name) {
            Some(value) => Ok(value),
            None => Err("profile "@ + quoted_text(name) + " is not declared"@),
        },
        Reference::Service(name, path) => match lookup(scope.services, name) {
            Some(value) => projection(name, value, path),
            None => Err("service "@ + quoted_text(name) + " is not declared"@),
        },
    }
}

/// The value reached from `value` by the members named in `path`.
pub open spec fn projection(name: Seq<char>, value: Json, path: Seq<Seq<char>>) -> Result<
    Json,
    Seq<char>,
>
    decreases path.len(),
{
    if path.len() == 0 {
        Ok(value)
    } else {
        match property(value, path[0]) {
            Some(next) => projection(name, next, path.drop_first()),
            None => Err(
                "service projection "@ + quoted_text(name) + "."@ + path[0] + " is unavailable"@,
            ),
        }
    }
}

/// What an expression evaluates to, or the message of its first failure.
pub open spec fn expression_value(expression: ConfigExpression, scope: ScopeModel) -> Result<
    Json,
    Seq<char>,
>
    decreases expression, 0int,
{
    match expression {
        ConfigExpression::Literal { value } => if is_scalar(value@) {
            Ok(value@)
        } else {
            Err("expression literals must be strings, booleans, or null"@)
        },
        ConfigExpression::Concat { values } => match concat_from(values@, 0, scope) {
            Ok(text) => Ok(Json::String(text)),
            Err(message) => Err(message),
        },
        ConfigExpression::Equals { left, right } => match expression_value(*left, scope) {
            Err(message) => Err(message),
            Ok(a) => match expression_value(*right, scope) {
                Err(message) => Err(message),
                Ok(b) => Ok(Json::Bool(same_json(a, b))),
            },
        },
        ConfigExpression::Not { value } => match truth(expression_value(*value, scope)) {
            Err(message) => Err(message),
            Ok(flag) => Ok(Json::Bool(!flag)),
        },
        ConfigExpression::And { values } => until_from(values@, 0, false, scope),
        ConfigExpression::Or { values } => until_from(values@, 0, true, scope),
        ConfigExpression::Coalesce { values } => coalesce_from(values@, 0, scope),
        ConfigExpression::Env { name } => reference_value(Reference::Env(name@), scope),
        ConfigExpression::Platform => reference_value(Reference::Platform, scope),
        ConfigExpression::Architecture => reference_value(Reference::Architecture, scope),
        ConfigExpression::Profile { name } => reference_value(Reference::Profile(name@), scope),
        ConfigExpression::Service { name, path } => reference_value(
            Reference::Service(name@, text_list(path@)),
            scope,
        ),
    }
}

/// An operand of a boolean operator.
pub open spec fn truth(operand: Result<Json, Seq<char>>) -> Result<bool, Seq<char>> {
    match operand {
        Err(message) => Err(message),
        Ok(Json::Bool(flag)) => Ok(flag),
        Ok(_) => Err("boolean expression expected"@),
    }
}

/// The texts of `values[from..]` one after the other.
pub open spec fn concat_from(values: Seq<ConfigExpression>, from: int, scope: ScopeModel) -> Result<
    Seq<char>,
    Seq<char>,
>
    decreases values, values.len() - from,
{
    if from < 0 || from >= values.len() {
        Ok(Seq::empty())
    } else {
        match expression_value(values[from], scope) {
            Err(message) => Err(message),
            Ok(Json::String(text)) => match concat_from(values, from + 1, scope) {
                Err(message) => Err(message),
                Ok(rest) => Ok(text + rest),
            },
            Ok(_) => Err("concat accepts only strings"@),
        }
    }
}

/// Whether one of `values[from..]` is `wanted`; later operands are not looked
/// at once it is known.
pub open spec fn until_from(
    values: Seq<ConfigExpression>,
    from: int,
    wanted: bool,
    scope: ScopeModel,
) -> Result<Json, Seq<char>>
    decreases values, values.len() - from,
{
    if from < 0 || from >= values.len() {
        Ok(Json::Bool(!wanted))
    } else {
        match truth(expression_value(values[from], scope)) {
            Err(message) => Err(message),
            Ok(flag) => if flag == wanted {
                Ok(Json::Bool(wanted))
            } else {
                until_from(values, from + 1, wanted, scope)
            },
        }
    }
}

/// The first of `values[from..]` that is not null.
pub open spec fn coalesce_from(
    values: Seq<ConfigExpression>,
    from: int,
    scope: ScopeModel,
) -> Result<Json, Seq<char>>
    decreases values, values.len() - from,
{
    if from < 0 || from >= values.len() {
        Ok(Json::Null)
    } else {
        match expression_value(values[from], scope) {
            Err(message) => Err(message),
            Ok(value) => if value is Null {
                coalesce_from(values, from + 1, scope)
            } else {
                Ok(value)
            },
        }
    }
}

/// A computed value, or the message of an expression failure.
pub open spec fn value_outcome(result: Result<JsonValue, String>) -> Result<Json, Seq<char>> {
    match result {
        Ok(value) => Ok(value@),
        Err(message) => Err(message@),
    }
}

fn project(name: &String, value: &JsonValue, path: &Vec<String>) -> (result: Result<JsonValue, String>)
    ensures
        value_outcome(result) == projection(name@, value@, text_list(path@)),
{
    let mut current: &JsonValue = value;
    let mut i: usize = 0;
    let ghost segments = text_list(path@);
    assert(segments.subrange(0, segments.len() as int) =~= segments);
    while i < path.len()
        invariant
            i <= path@.len(),
            segments == text_list(path@),
            projection(name@, value@, segments) == projection(
                name@,
                current@,
                segments.subrange(i as int, segments.len() as int),
            ),
        decreases path@.len() - i,
    {
        let ghost rest = segments.subrange(i as int, segments.len() as int);
        assert(rest.drop_first() =~= segments.subrange(i + 1, segments.len() as int));
        assert(rest[0] == path@[i as int]@);
        match current.get(path[i].as_str()) {
            Some(next) => {
                current = next;
            },
            None => {
                let mut message = join3("service projection ", quoted(name.as_str()).as_str(), ".");
                message.append(path[i].as_str());
                message.append(" is unavailable");
                return Err(message);
            },
        }
        i += 1;
    }
    assert(segments.subrange(i as int, segments.len() as int) =~= Seq::empty());
    Ok(current.clone())
}

fn as_bool(operand: Result<JsonValue, String>) -> (result: Result<bool, String>)
    ensures
        match result {
            Ok(flag) => truth(value_outcome(operand)) == Ok::<bool, Seq<char>>(flag),
            Err(message) => truth(value_outcome(operand)) == Err::<bool, Seq<char>>(message@),
        },
{
    match operand {
        Err(message) => Err(message),
        Ok(value) => match value.as_bool() {
            Some(flag) => Ok(flag),
            None => Err("boolean expression expected".to_owned()),
        },
    }
}

fn ensure_scalar(value: &JsonValue) -> (result: Result<(), String>)
    ensures
        match result {
            Ok(()) => is_scalar(value@),
            Err(message) => !is_scalar(value@) && message@
                == "expression literals must be strings, booleans, or null"@,
        },
{
    match value {
        JsonValue::String(_) | JsonValue::Bool(_) | JsonValue::Null => Ok(()),
        _ => Err("expression literals must be strings, booleans, or null".to_owned()),
    }
}

impl ConfigExpression {
    /// Parses one reference expression, or says why it is none.
    pub fn parse(source: &str) -> (result: Result<ConfigExpression, LoaderError>)
        ensures
            match result {
                Ok(expression) => reference_of(expression) is Some && parsed_reference(source@)
                    == Ok::<Reference, Seq<char>>(reference_of(expression)->Some_0),
                Err(error) => error@ is Expression && parsed_reference(source@) == Err::<
                    Reference,
                    Seq<char>,
                >(error@->Expression_0),
            },
    {
        match ConfigExpression::parse_text(source) {
            Ok(expression) => Ok(expression),
            Err(message) => Err(LoaderError::Expression(message)),
        }
    }

    /// Evaluates this expression over the declared inputs.
    pub fn evaluate(&self, scope: &ConfigScope) -> (result: Result<JsonValue, LoaderError>)
        ensures
            loader_value(result) == expression_failure(expression_value(*self, scope@)),
    {
        match self.value_in(scope) {
            Ok(value) => Ok(value),
            Err(message) => Err(LoaderError::Expression(message)),
        }
    }

    fn parse_text(source: &str) -> (result: Result<ConfigExpression, String>)
        ensures
            match result {
                Ok(expression) => reference_of(expression) is Some && parsed_reference(source@)
                    == Ok::<Reference, Seq<char>>(reference_of(expression)->Some_0),
                Err(message) => parsed_reference(source@) == Err::<Reference, Seq<char>>(message@),
            },
    {
        let chars = characters(source);
        let n = chars.len();
        let inner: &str = if n >= 3 && chars[0] == '$' && chars[1] == '{' && chars[n - 1] == '}' {
            source.substring_char(2, n - 1)
        } else {
            source
        };
        assert(inner@ == unwrapped(source@));
        if same_text(inner, "platform") {
            return Ok(ConfigExpression::Platform);
        }
        if same_text(inner, "architecture") {
            return Ok(ConfigExpression::Architecture);
        }
        let parts = split(inner, '.');
        let ghost model = pieces(inner@, '.');
        proof {
            pieces_are_never_empty(inner@, '.');
            assert(model == text_list(parts@));
        }
        let mut i: usize = 1;
        while i < parts.len()
            invariant
                1 <= i <= parts@.len(),
                model == text_list(parts@),
                inner@ == unwrapped(source@),
                inner@ != "platform"@,
                inner@ != "architecture"@,
                model == pieces(inner@, '.'),
                forall|j: int| 1 <= j < i ==> name_shape(#[trigger] model[j]),
            decreases parts@.len() - i,
        {
            assert(model[i as int] == parts@[i as int]@);
            if !is_name(parts[i].as_str()) {
                assert(!names_follow(model));
                return Err(join2("invalid expression ", quoted(inner).as_str()));
            }
            i += 1;
        }
        assert(model[0] == parts@[0]@);
        if parts.len() == 2 && same_text(parts[0].as_str(), "env") {
            assert(model[1] == parts@[1]@);
            return Ok(ConfigExpression::Env { name: parts[1].clone() });
        }
        if parts.len() == 2 && same_text(parts[0].as_str(), "profile") {
            assert(model[1] == parts@[1]@);
            proof {
                reveal_strlit("env");
                reveal_strlit("profile");
            }
            return Ok(ConfigExpression::Profile { name: parts[1].clone() });
        }
        if parts.len() >= 2 && same_text(parts[0].as_str(), "service") {
            let mut path: Vec<String> = Vec::new();
            let mut k: usize = 2;
            while k < parts.len()
                invariant
                    2 <= k <= parts@.len(),
                    model == text_list(parts@),
                    text_list(path@) == model.subrange(2, k as int),
                decreases parts@.len() - k,
            {
                let ghost before = text_list(path@);
                path.push(parts[k].clone());
                assert(text_list(path@) =~= before.push(model[k as int]));
                assert(model.subrange(2, k + 1) =~= model.subrange(2, k as int).push(
                    model[k as int],
                ));
                k += 1;
            }
            proof {
                reveal_strlit("env");
                reveal_strlit("profile");
                reveal_strlit("service");
                assert(model[1] == parts@[1]@);
            }
            return Ok(ConfigExpression::Service { name: parts[1].clone(), path });
        }
        Err(join2("unsupported expression ", quoted(inner).as_str()))
    }

    fn value_in(&self, scope: &ConfigScope) -> (result: Result<JsonValue, String>)
        ensures
            value_outcome(result) == expression_value(*self, scope@),
        decreases *self,
    {
        match self {
            ConfigExpression::Literal { value } => match ensure_scalar(value) {
                Ok(()) => Ok(value.clone()),
                Err(message) => Err(message),
            },
            ConfigExpression::Env { name } => match find_variable(&scope.environment, name) {
                Some(i) => Ok(JsonValue::String(scope.environment[i].value.clone())),
                None => Err(
                    join3(
                        "environment variable ",
                        quoted(name.as_str()).as_str(),
                        " is not allowed",
                    ),
                ),
            },
            ConfigExpression::Platform => Ok(JsonValue::String(scope.platform.clone())),
            ConfigExpression::Architecture => Ok(JsonValue::String(scope.architecture.clone())),
            ConfigExpression::Profile { name } => match find_member(
                &scope.profiles,
                name.as_str(),
            ) {
                Some(i) => Ok(scope.profiles[i].value.clone()),
                None => Err(
                    join3("profile ", quoted(name.as_str()).as_str(), " is not declared"),
                ),
            },
            ConfigExpression::Service { name, path } => match find_member(
                &scope.services,
                name.as_str(),
            ) {
                Some(i) => project(name, &scope.services[i].value, path),
                None => Err(
                    join3("service ", quoted(name.as_str()).as_str(), " is not declared"),
                ),
            },
            ConfigExpression::Concat { values } => {
                let mut text = String::new();
                let mut i: usize = 0;
                let ghost whole = concat_from(values@, 0, scope@);
                while i < values.len()
                    invariant
                        i <= values@.len(),
                        decreases_to!(*self => values@),
                        whole == concat_from(values@, 0, scope@),
                        whole == (match concat_from(values@, i as int, scope@) {
                            Ok(rest) => Ok::<Seq<char>, Seq<char>>(text@ + rest),
                            Err(message) => Err::<Seq<char>, Seq<char>>(message),
                        }),
                        expression_value(*self, scope@) == (match whole {
                            Ok(all) => Ok::<Json, Seq<char>>(Json::String(all)),
                            Err(message) => Err::<Json, Seq<char>>(message),
                        }),
                    decreases values@.len() - i,
                {
                    match values[i].value_in(scope) {
                        Err(message) => {
                            return Err(message);
                        },
                        Ok(value) => match value.as_str() {
                            Some(part) => {
                                let ghost before = text@;
                                text.append(part);
                                proof {
                                    match concat_from(values@, i + 1, scope@) {
                                        Ok(rest) => {
                                            assert(before + (part@ + rest) =~= text@ + rest);
                                        },
                                        Err(_) => {},
                                    }
                                }
                            },
                            None => {
                                return Err("concat accepts only strings".to_owned());
                            },
                        },
                    }
                    i += 1;
                }
                assert(text@ + Seq::<char>::empty() =~= text@);
                Ok(JsonValue::String(text))
            },
            ConfigExpression::Equals { left, right } => {
                let a = match left.value_in(scope) {
                    Ok(value) => value,
                    Err(message) => return Err(message),
                };
                let b = match right.value_in(scope) {
                    Ok(value) => value,
                    Err(message) => return Err(message),
                };
                Ok(JsonValue::Bool(values_equal(&a, &b)))
            },
            ConfigExpression::Not { value } => match as_bool(value.value_in(scope)) {
                Ok(flag) => Ok(JsonValue::Bool(!flag)),
                Err(message) => Err(message),
            },
            ConfigExpression::And { values } => {
                let mut i: usize = 0;
                while i < values.len()
                    invariant
                        i <= values@.len(),
                        decreases_to!(*self => values@),
                        expression_value(*self, scope@) == until_from(
                            values@,
                            i as int,
                            false,
                            scope@,
                        ),
                    decreases values@.len() - i,
                {
                    match as_bool(values[i].value_in(scope)) {
                        Err(message) => {
                            return Err(message);
                        },
                        Ok(flag) => {
                            if !flag {
                                return Ok(JsonValue::Bool(false));
                            }
                        },
                    }
                    i += 1;
                }
                Ok(JsonValue::Bool(true))
            },
            ConfigExpression::Or { values } => {
                let mut i: usize = 0;
                while i < values.len()
                    invariant
                        i <= values@.len(),
                        decreases_to!(*self => values@),
                        expression_value(*self, scope@) == until_from(
                            values@,
                            i as int,
                            true,
                            scope@,
                        ),
                    decreases values@.len() - i,
                {
                    match as_bool(values[i].value_in(scope)) {
                        Err(message) => {
                            return Err(message);
                        },
                        Ok(flag) => {
                            if flag {
                                return Ok(JsonValue::Bool(true));
                            }
                        },
                    }
                    i += 1;
                }
                Ok(JsonValue::Bool(false))
            },
            ConfigExpression::Coalesce { values } => {
                let mut i: usize = 0;
                while i < values.len()
                    invariant
                        i <= values@.len(),
                        decreases_to!(*self => values@),
                        expression_value(*self, scope@) == coalesce_from(
                            values@,
                            i as int,
                            scope@,
                        ),
                    decreases values@.len() - i,
                {
                    match values[i].value_in(scope) {
                        Err(message) => {
                            return Err(message);
                        },
                        Ok(value) => {
                            if !value.is_null() {
                                return Ok(value);
                            }
                        },
                    }
                    i += 1;
                }
                Ok(JsonValue::Null)
            },
        }
    }
}

/// A value, or the failure that took its place.
pub open spec fn loader_value(result: Result<JsonValue, LoaderError>) -> Result<Json, LoaderFailure> {
    match result {
        Ok(value) => Ok(value@),
        Err(error) => Err(error@),
    }
}

/// A message as the failure of an expression.
pub open spec fn expression_failure(outcome: Result<Json, Seq<char>>) -> Result<
    Json,
    LoaderFailure,
> {
    match outcome {
        Ok(value) => Ok(value),
        Err(message) => Err(LoaderFailure::Expression(message)),
    }
}

/// One member is named like an embedded script.
pub open spec fn has_script_key(members: Seq<(Seq<char>, Json)>) -> bool {
    exists|i: int|
        0 <= i < members.len() && ((#[trigger] members[i]).0 == "$js"@ || members[i].0 == "!!js"@)
}

/// The reference held by an expression object, or why there is none.
pub open spec fn embedded_reference(members: Seq<(Seq<char>, Json)>, expression: Json) -> Result<
    Reference,
    Seq<char>,
> {
    if members.len() != 1 {
        Err("an expression object may contain only $expr"@)
    } else {
        match expression {
            Json::String(text) => parsed_reference(text),
            _ => Err("$expr must be a string"@),
        }
    }
}

/// What a configuration value resolves to: `{"$expr": "..."}` leaves become
/// the value of their reference, everything else keeps its shape.
pub open spec fn resolved(value: Json, scope: ScopeModel) -> Result<Json, Seq<char>>
    decreases value, 0int,
{
    match value {
        Json::Array(values) => match resolved_list(values, 0, scope) {
            Ok(list) => Ok(Json::Array(list)),
            Err(message) => Err(message),
        },
        Json::Object(members) => match lookup(members, "$expr"@) {
            Some(expression) => match embedded_reference(members, expression) {
                Ok(reference) => reference_value(reference, scope),
                Err(message) => Err(message),
            },
            None => if has_script_key(members) {
                Err("arbitrary JavaScript expressions are not supported"@)
            } else {
                match resolved_members(members, 0, scope) {
                    Ok(list) => Ok(Json::Object(list)),
                    Err(message) => Err(message),
                }
            },
        },
        _ => Ok(value),
    }
}

/// The resolved values of `values[from..]`, or the first failure.
pub open spec fn resolved_list(values: Seq<Json>, from: int, scope: ScopeModel) -> Result<
    Seq<Json>,
    Seq<char>,
>
    decreases values, values.len() - from,
{
    if from < 0 || from >= values.len() {
        Ok(Seq::empty())
    } else {
        match resolved(values[from], scope) {
            Err(message) => Err(message),
            Ok(value) => match resolved_list(values, from + 1, scope) {
                Err(message) => Err(message),
                Ok(rest) => Ok(seq![value] + rest),
            },
        }
    }
}

/// The resolved members of `members[from..]`, or the first failure.
pub open spec fn resolved_members(
    members: Seq<(Seq<char>, Json)>,
    from: int,
    scope: ScopeModel,
) -> Result<Seq<(Seq<char>, Json)>, Seq<char>>
    decreases members, members.len() - from,
{
    if from < 0 || from >= members.len() {
        Ok(Seq::empty())
    } else {
        match resolved(members[from].1, scope) {
            Err(message) => Err(message),
            Ok(value) => match resolved_members(members, from + 1, scope) {
                Err(message) => Err(message),
                Ok(rest) => Ok(seq![(members[from].0, value)] + rest),
            },
        }
    }
}

/// Whether some member is named like an embedded script.
pub fn contains_script(members: &Vec<Member>) -> (result: bool)
    ensures
        result == has_script_key(json_members(members@)),
{
    let mut i: usize = 0;
    let ghost model = json_members(members@);
    while i < members.len()
        invariant
            i <= members@.len(),
            model == json_members(members@),
            forall|j: int|
                0 <= j < i ==> (#[trigger] model[j]).0 != "$js"@ && model[j].0 != "!!js"@,
        decreases members@.len() - i,
    {
        assert(model[i as int].0 == members@[i as int].key@);
        if same_text(members[i].key.as_str(), "$js") || same_text(
            members[i].key.as_str(),
            "!!js",
        ) {
            return true;
        }
        i += 1;
    }
    false
}

/// Reads the reference of an expression object.
pub fn embedded_expression(members: &Vec<Member>, expression: &JsonValue) -> (result: Result<
    ConfigExpression,
    String,
>)
    ensures
        match result {
            Ok(parsed) => reference_of(parsed) is Some && embedded_reference(
                json_members(members@),
                expression@,
            ) == Ok::<Reference, Seq<char>>(reference_of(parsed)->Some_0),
            Err(message) => embedded_reference(json_members(members@), expression@) == Err::<
                Reference,
                Seq<char>,
            >(message@),
        },
{
    if members.len() != 1 {
        return Err("an expression object may contain only $expr".to_owned());
    }
    match expression.as_str() {
        Some(text) => ConfigExpression::parse_text(text),
        None => Err("$expr must be a string".to_owned()),
    }
}

fn resolve(value: &JsonValue, scope: &ConfigScope) -> (result: Result<JsonValue, String>)
    ensures
        value_outcome(result) == resolved(value@, scope@),
    decreases *value,
{
    proof {
        lemma_array_view(*value);
    }
    match value {
        JsonValue::Array(values) => {
            let mut list: Vec<JsonValue> = Vec::new();
            let mut i: usize = 0;
            let ghost model = json_list(values@);
            let ghost whole = resolved_list(model, 0, scope@);
            assert(json_list(list@) =~= Seq::empty());
            proof {
                match whole {
                    Ok(all) => {
                        assert(Seq::<Json>::empty() + all =~= all);
                    },
                    Err(_) => {},
                }
            }
            while i < values.len()
                invariant
                    i <= values@.len(),
                    decreases_to!(*value => values@),
                    model == json_list(values@),
                    value@ == Json::Array(model),
                    whole == resolved_list(model, 0, scope@),
                    whole == (match resolved_list(model, i as int, scope@) {
                        Ok(rest) => Ok::<Seq<Json>, Seq<char>>(json_list(list@) + rest),
                        Err(message) => Err::<Seq<Json>, Seq<char>>(message),
                    }),
                decreases values@.len() - i,
            {
                assert(model[i as int] == values@[i as int]@);
                match resolve(&values[i], scope) {
                    Err(message) => {
                        return Err(message);
                    },
                    Ok(item) => {
                        let ghost before = json_list(list@);
                        list.push(item);
                        proof {
                            assert(json_list(list@) =~= before.push(item@));
                            match resolved_list(model, i + 1, scope@) {
                                Ok(rest) => {
                                    assert(before + (seq![item@] + rest) =~= json_list(list@)
                                        + rest);
                                },
                                Err(_) => {},
                            }
                        }
                    },
                }
                i += 1;
            }
            assert(json_list(list@) + Seq::<Json>::empty() =~= json_list(list@));
            let result = JsonValue::Array(list);
            proof {
                lemma_array_view(result);
            }
            Ok(result)
        },
        JsonValue::Object(members) => {
            let ghost model = json_members(members@);
            if let Some(at) = find_member(members, "$expr") {
                return match embedded_expression(members, &members[at].value) {
                    Ok(expression) => expression.value_in(scope),
                    Err(message) => Err(message),
                };
            }
            if contains_script(members) {
                return Err("arbitrary JavaScript expressions are not supported".to_owned());
            }
            let mut list: Vec<Member> = Vec::new();
            let mut i: usize = 0;
            let ghost whole = resolved_members(model, 0, scope@);
            assert(json_members(list@) =~= Seq::empty());
            proof {
                match whole {
                    Ok(all) => {
                        assert(Seq::<(Seq<char>, Json)>::empty() + all =~= all);
                    },
                    Err(_) => {},
                }
            }
            while i < members.len()
                invariant
                    i <= members@.len(),
                    decreases_to!(*value => members@),
                    model == json_members(members@),
                    value@ == Json::Object(model),
                    lookup(model, "$expr"@) is None,
                    !has_script_key(model),
                    whole == resolved_members(model, 0, scope@),
                    whole == (match resolved_members(model, i as int, scope@) {
                        Ok(rest) => Ok::<Seq<(Seq<char>, Json)>, Seq<char>>(
                            json_members(list@) + rest,
                        ),
                        Err(message) => Err::<Seq<(Seq<char>, Json)>, Seq<char>>(message),
                    }),
                decreases members@.len() - i,
            {
                assert(model[i as int] == (members@[i as int].key@, members@[i as int].value@));
                match resolve(&members[i].value, scope) {
                    Err(message) => {
                        return Err(message);
                    },
                    Ok(item) => {
                        let ghost before = json_members(list@);
                        let member = Member { key: members[i].key.clone(), value: item };
                        list.push(member);
                        proof {
                            let pair = (member.key@, member.value@);
                            assert(json_members(list@) =~= before.push(pair));
                            match resolved_members(model, i + 1, scope@) {
                                Ok(rest) => {
                                    assert(before + (seq![pair] + rest) =~= json_members(list@)
                                        + rest);
                                },
                                Err(_) => {},
                            }
                        }
                    },
                }
                i += 1;
            }
            assert(json_members(list@) + Seq::<(Seq<char>, Json)>::empty() =~= json_members(list@));
            let result = JsonValue::Object(list);
            proof {
                lemma_array_view(result);
            }
            Ok(result)
        },
        _ => Ok(value.clone()),
    }
}

/// Evaluates embedded `{ "$expr": "..." }` leaves in a configuration value.
/// Other values are copied unchanged after their children are resolved.
pub fn evaluate_config(value: &JsonValue, scope: &ConfigScope) -> (result: Result<
    JsonValue,
    LoaderError,
>)
    ensures
        loader_value(result) == expression_failure(resolved(value@, scope@)),
{
    match resolve(value, scope) {
        Ok(value) => Ok(value),
        Err(message) => Err(LoaderError::Expression(message)),
    }
}

/// No object in the value is an expression or an embedded script.
pub open spec fn expression_free(value: Json) -> bool
    decreases value,
{
    match value {
        Json::Array(values) => forall|i: int|
            0 <= i < values.len() ==> expression_free(#[trigger] values[i]),
        Json::Object(members) => lookup(members, "$expr"@) is None && !has_script_key(members)
            && forall|i: int|
            0 <= i < members.len() ==> expression_free((#[trigger] members[i]).1),
        _ => true,
    }
}

/// A configuration without expressions resolves to itself, whatever the host
/// declares.
pub proof fn plain_configuration_is_unchanged(value: Json, scope: ScopeModel)
    requires
        expression_free(value),
    ensures
        resolved(value, scope) == Ok::<Json, Seq<char>>(value),
    decreases value, 0int,
{
    match value {
        Json::Array(values) => {
            plain_list_is_unchanged(values, 0, scope);
            assert(values.subrange(0, values.len() as int) =~= values);
        },
        Json::Object(members) => {
            plain_members_are_unchanged(members, 0, scope);
            assert(members.subrange(0, members.len() as int) =~= members);
        },
        _ => {},
    }
}

proof fn plain_list_is_unchanged(values: Seq<Json>, from: int, scope: ScopeModel)
    requires
        0 <= from <= values.len(),
        forall|i: int| 0 <= i < values.len() ==> expression_free(#[trigger] values[i]),
    ensures
        resolved_list(values, from, scope) == Ok::<Seq<Json>, Seq<char>>(
            values.subrange(from, values.len() as int),
        ),
    decreases values, values.len() - from,
{
    if from < values.len() {
        plain_configuration_is_unchanged(values[from], scope);
        plain_list_is_unchanged(values, from + 1, scope);
        assert(values.subrange(from, values.len() as int) =~= seq![values[from]]
            + values.subrange(from + 1, values.len() as int));
    } else {
        assert(values.subrange(from, values.len() as int) =~= Seq::empty());
    }
}

proof fn plain_members_are_unchanged(
    members: Seq<(Seq<char>, Json)>,
    from: int,
    scope: ScopeModel,
)
    requires
        0 <= from <= members.len(),
        forall|i: int| 0 <= i < members.len() ==> expression_free((#[trigger] members[i]).1),
    ensures
        resolved_members(members, from, scope) == Ok::<Seq<(Seq<char>, Json)>, Seq<char>>(
            members.subrange(from, members.len() as int),
        ),
    decreases members, members.len() - from,
{
    if from < members.len() {
        plain_configuration_is_unchanged(members[from].1, scope);
        plain_members_are_unchanged(members, from + 1, scope);
        assert(members.subrange(from, members.len() as int) =~= seq![members[from]]
            + members.subrange(from + 1, members.len() as int));
    } else {
        assert(members.subrange(from, members.len() as int) =~= Seq::empty());
    }
}

}
