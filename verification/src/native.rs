//! Native plugins: what they declare, how they fail, and which are known.

use vstd::prelude::*;
use vstd::string::*;

use crate::error::{core_message, CoreError, CoreFailure, LoaderError, LoaderFailure};
use crate::ids::{key_text, ServiceKeyModel};
use crate::json::{Json, JsonValue};
use crate::schema::{
    config_message, schema_fault, value_fault, ConfigFailure, NativeConfigError,
    NativeConfigSchema, SchemaModel,
};
use crate::service::Dependency;
use crate::text::{
    blank, comes_before, decimal, decimal_text, is_blank, join2, same_text, text_list,
};

verus! {

/// The lifecycle phases in which a native plugin can fail.
#[derive(Clone, Copy, Debug, PartialEq, Eq, Structural)]
pub enum NativePluginPhase {
    Start,
    Update,
    Stop,
}

impl NativePluginPhase {
    pub open spec fn spec_operation(self) -> Seq<char> {
        match self {
            NativePluginPhase::Start => "start native plugin"@,
            NativePluginPhase::Update => "update native plugin"@,
            NativePluginPhase::Stop => "stop native plugin"@,
        }
    }

    /// The operation that runs in this phase.
    pub fn operation(self) -> (result: &'static str)
        ensures
            result@ == self.spec_operation(),
    {
        match self {
            NativePluginPhase::Start => "start native plugin",
            NativePluginPhase::Update => "update native plugin",
            NativePluginPhase::Stop => "stop native plugin",
        }
    }

    pub open spec fn spec_name(self) -> Seq<char> {
        match self {
            NativePluginPhase::Start => "Start"@,
            NativePluginPhase::Update => "Update"@,
            NativePluginPhase::Stop => "Stop"@,
        }
    }

    /// The name of this phase in messages.
    pub fn name(self) -> (result: &'static str)
        ensures
            result@ == self.spec_name(),
    {
        match self {
            NativePluginPhase::Start => "Start",
            NativePluginPhase::Update => "Update",
            NativePluginPhase::Stop => "Stop",
        }
    }
}

/// A native-plugin lifecycle, descriptor, or configuration failure.
#[allow(inconsistent_fields)]
#[derive(Debug, PartialEq, Eq)]
pub enum NativePluginError {
    Descriptor { field: String, message: String },
    Config(NativeConfigError),
    Core(CoreError),
    Plugin { phase: NativePluginPhase, message: String },
    Runtime { package: String, message: String },
    Cleanup(Vec<NativePluginError>),
}

/// The model of a native-plugin failure.
#[allow(inconsistent_fields)]
#[verifier::ext_equal]
pub enum NativeFailure {
    Descriptor { field: Seq<char>, message: Seq<char> },
    Config(ConfigFailure),
    Core(CoreFailure),
    Plugin { phase: NativePluginPhase, message: Seq<char> },
    Runtime { package: Seq<char>, message: Seq<char> },
    Cleanup(Seq<NativeFailure>),
}

/// The model of one failure.
pub open spec fn native_failure_of(error: NativePluginError) -> NativeFailure
    decreases error,
{
    match error {
        NativePluginError::Descriptor { field, message } => NativeFailure::Descriptor {
            field: field@,
            message: message@,
        },
        NativePluginError::Config(error) => NativeFailure::Config(error@),
        NativePluginError::Core(error) => NativeFailure::Core(error@),
        NativePluginError::Plugin { phase, message } => NativeFailure::Plugin {
            phase,
            message: message@,
        },
        NativePluginError::Runtime { package, message } => NativeFailure::Runtime {
            package: package@,
            message: message@,
        },
        NativePluginError::Cleanup(errors) => NativeFailure::Cleanup(
            Seq::new(
                errors@.len(),
                |i: int|
                    if 0 <= i < errors@.len() {
                        native_failure_of(errors@[i])
                    } else {
                        NativeFailure::Core(CoreFailure::Cancelled)
                    },
            ),
        ),
    }
}

impl View for NativePluginError {
    type V = NativeFailure;

    open spec fn view(&self) -> NativeFailure {
        native_failure_of(*self)
    }
}

/// The models of a list of failures.
pub open spec fn native_failures(errors: Seq<NativePluginError>) -> Seq<NativeFailure> {
    Seq::new(errors.len(), |i: int| errors[i]@)
}

/// The model of a cleanup failure lists the models of its causes.
pub proof fn lemma_native_view(error: NativePluginError)
    ensures
        error matches NativePluginError::Cleanup(errors) ==> error@ == NativeFailure::Cleanup(
            native_failures(errors@),
        ),
{
    match error {
        NativePluginError::Cleanup(errors) => {
            assert(error@->Cleanup_0 =~= native_failures(errors@));
        },
        _ => {},
    }
}

impl Clone for NativePluginError {
    fn clone(&self) -> (result: Self)
        ensures
            result@ == self@,
        decreases *self,
    {
        proof {
            lemma_native_view(*self);
        }
        match self {
            NativePluginError::Descriptor { field, message } => NativePluginError::Descriptor {
                field: field.clone(),
                message: message.clone(),
            },
            NativePluginError::Config(error) => NativePluginError::Config(error.clone()),
            NativePluginError::Core(error) => NativePluginError::Core(error.clone()),
            NativePluginError::Plugin { phase, message } => NativePluginError::Plugin {
                phase: *phase,
                message: message.clone(),
            },
            NativePluginError::Runtime { package, message } => NativePluginError::Runtime {
                package: package.clone(),
                message: message.clone(),
            },
            NativePluginError::Cleanup(errors) => {
                let mut copies: Vec<NativePluginError> = Vec::new();
                let mut i: usize = 0;
                while i < errors.len()
                    invariant
                        i <= errors@.len(),
                        copies@.len() == i,
                        decreases_to!(*self => errors@),
                        forall|k: int| 0 <= k < i ==> (#[trigger] copies@[k])@ == errors@[k]@,
                    decreases errors@.len() - i,
                {
                    copies.push(errors[i].clone());
                    i += 1;
                }
                let result = NativePluginError::Cleanup(copies);
                proof {
                    lemma_native_view(result);
                    assert(native_failures(copies@) =~= native_failures(errors@));
                }
                result
            },
        }
    }
}

/// Several failures as one: a single one stands for itself.
pub open spec fn native_cleanup(failures: Seq<NativeFailure>) -> NativeFailure {
    if failures.len() == 1 {
        failures[0]
    } else {
        NativeFailure::Cleanup(failures)
    }
}

/// The message that a native-plugin failure shows.
pub open spec fn native_message(error: NativeFailure) -> Seq<char> {
    match error {
        NativeFailure::Descriptor { field, message } => "invalid native plugin descriptor "@
            + field + ": "@ + message,
        NativeFailure::Config(error) => config_message(error),
        NativeFailure::Core(error) => core_message(error),
        NativeFailure::Plugin { phase, message } => "native plugin "@ + phase.spec_name()
            + " failed: "@ + message,
        NativeFailure::Runtime { package, message } => "native plugin package "@ + package
            + " failed: "@ + message,
        NativeFailure::Cleanup(errors) => decimal_text(errors.len())
            + " native plugin cleanup error(s)"@,
    }
}

impl NativePluginError {
    pub fn plugin(phase: NativePluginPhase, message: String) -> (result: Self)
        ensures
            result@ == (NativeFailure::Plugin { phase, message: message@ }),
    {
        NativePluginError::Plugin { phase, message }
    }

    /// Several failures as one.
    pub fn cleanup(errors: Vec<NativePluginError>) -> (result: Self)
        requires
            errors@.len() > 0,
        ensures
            result@ == native_cleanup(native_failures(errors@)),
    {
        if errors.len() == 1 {
            let mut errors = errors;
            let ghost model = native_failures(errors@);
            let error = errors.remove(0);
            assert(error@ == model[0]);
            return error;
        }
        let result = NativePluginError::Cleanup(errors);
        proof {
            lemma_native_view(result);
        }
        result
    }

    /// The message that this failure shows.
    pub fn message(&self) -> (result: String)
        ensures
            result@ == native_message(self@),
    {
        proof {
            lemma_native_view(*self);
        }
        match self {
            NativePluginError::Descriptor { field, message } => {
                let mut text = join2("invalid native plugin descriptor ", field.as_str());
                text.append(": ");
                text.append(message.as_str());
                text
            },
            NativePluginError::Config(error) => error.message(),
            NativePluginError::Core(error) => error.message(),
            NativePluginError::Plugin { phase, message } => {
                let mut text = join2("native plugin ", phase.name());
                text.append(" failed: ");
                text.append(message.as_str());
                text
            },
            NativePluginError::Runtime { package, message } => {
                let mut text = join2("native plugin package ", package.as_str());
                text.append(" failed: ");
                text.append(message.as_str());
                text
            },
            NativePluginError::Cleanup(errors) => join2(
                decimal(errors.len() as u64).as_str(),
                " native plugin cleanup error(s)",
            ),
        }
    }
}

impl From<CoreError> for NativePluginError {
    fn from(error: CoreError) -> (result: Self) {
        NativePluginError::Core(error)
    }
}

impl vstd::std_specs::convert::FromSpecImpl<CoreError> for NativePluginError {
    open spec fn obeys_from_spec() -> bool {
        true
    }

    open spec fn from_spec(error: CoreError) -> NativePluginError {
        NativePluginError::Core(error)
    }
}

/// The failure of a native operation, if any.
pub open spec fn native_outcome(result: Result<(), NativePluginError>) -> Result<
    (),
    NativeFailure,
> {
    match result {
        Ok(()) => Ok(()),
        Err(error) => Err(error@),
    }
}

/// How a plugin's own failure shows in the fiber that ran it.
pub open spec fn fiber_failure(failure: NativeFailure, phase: NativePluginPhase) -> CoreFailure {
    match failure {
        NativeFailure::Core(failure) => failure,
        _ => CoreFailure::Plugin {
            phase: phase.spec_operation(),
            message: native_message(failure),
        },
    }
}

/// How a plugin's own failure shows in the fiber that ran it.
pub fn lifecycle_error(error: NativePluginError, phase: NativePluginPhase) -> (result: CoreError)
    ensures
        result@ == fiber_failure(error@, phase),
{
    let message = error.message();
    match error {
        NativePluginError::Core(error) => error,
        _ => CoreError::Plugin { phase: phase.operation().to_owned(), message },
    }
}

/// Declarative metadata for a native plugin.
#[derive(Debug, PartialEq, Eq)]
pub struct NativePluginDescriptor {
    pub name: String,
    pub version: String,
    pub dependencies: Vec<Dependency>,
    pub config_schema: NativeConfigSchema,
}

/// The model of a dependency.
#[verifier::ext_equal]
pub struct Need {
    pub key: ServiceKeyModel,
    pub required: bool,
}

/// The models of a list of dependencies.
pub open spec fn need_list(dependencies: Seq<Dependency>) -> Seq<Need> {
    Seq::new(
        dependencies.len(),
        |i: int| Need { key: dependencies[i].spec_key(), required: dependencies[i] is Required },
    )
}

/// The model of a descriptor.
#[verifier::ext_equal]
pub struct DescriptorModel {
    pub name: Seq<char>,
    pub version: Seq<char>,
    pub dependencies: Seq<Need>,
    pub config_schema: SchemaModel,
}

impl View for NativePluginDescriptor {
    type V = DescriptorModel;

    open spec fn view(&self) -> DescriptorModel {
        DescriptorModel {
            name: self.name@,
            version: self.version@,
            dependencies: need_list(self.dependencies@),
            config_schema: self.config_schema@,
        }
    }
}

/// A copy of a list of dependencies.
pub fn clone_needs(dependencies: &Vec<Dependency>) -> (result: Vec<Dependency>)
    ensures
        need_list(result@) == need_list(dependencies@),
{
    let mut copies: Vec<Dependency> = Vec::new();
    let mut i: usize = 0;
    while i < dependencies.len()
        invariant
            i <= dependencies@.len(),
            copies@.len() == i,
            forall|k: int|
                0 <= k < i ==> (#[trigger] copies@[k]).spec_key() == dependencies@[k].spec_key()
                    && (copies@[k] is Required) == (dependencies@[k] is Required),
        decreases dependencies@.len() - i,
    {
        copies.push(dependencies[i].clone());
        i += 1;
    }
    assert(need_list(copies@) =~= need_list(dependencies@));
    copies
}

impl Clone for NativePluginDescriptor {
    fn clone(&self) -> (result: Self)
        ensures
            result@ == self@,
    {
        NativePluginDescriptor {
            name: self.name.clone(),
            version: self.version.clone(),
            dependencies: clone_needs(&self.dependencies),
            config_schema: self.config_schema.clone(),
        }
    }
}

/// A dependency that an earlier one names as well.
pub open spec fn repeated(needs: Seq<Need>, at: int) -> bool {
    exists|k: int|
        0 <= k < at && key_text((#[trigger] needs[k]).key) == key_text(needs[at].key)
}

/// The first dependency at or after `from` that an earlier one names as well.
pub open spec fn first_repeated(needs: Seq<Need>, from: int) -> Option<int>
    decreases needs.len() - from,
{
    if from < 0 || from >= needs.len() {
        None
    } else if repeated(needs, from) {
        Some(from)
    } else {
        first_repeated(needs, from + 1)
    }
}

/// Why a descriptor is refused: the first rule, in order, that it breaks.
pub open spec fn descriptor_fault(descriptor: DescriptorModel) -> Option<NativeFailure> {
    if blank(descriptor.name) {
        Some(NativeFailure::Descriptor { field: "name"@, message: "must not be blank"@ })
    } else if blank(descriptor.version) {
        Some(NativeFailure::Descriptor { field: "version"@, message: "must not be blank"@ })
    } else {
        match first_repeated(descriptor.dependencies, 0) {
            Some(at) => Some(
                NativeFailure::Descriptor {
                    field: "dependencies"@,
                    message: "contains duplicate dependency "@ + key_text(
                        descriptor.dependencies[at].key,
                    ),
                },
            ),
            None => match schema_fault(descriptor.config_schema, "$schema"@) {
                Some(failure) => Some(NativeFailure::Config(failure)),
                None => None,
            },
        }
    }
}

/// Why a descriptor refuses a configuration, or is refused itself.
pub open spec fn native_config_fault(descriptor: DescriptorModel, config: Json) -> Option<
    NativeFailure,
> {
    match descriptor_fault(descriptor) {
        Some(failure) => Some(failure),
        None => match value_fault(descriptor.config_schema, config, "$"@) {
            Some(failure) => Some(NativeFailure::Config(failure)),
            None => None,
        },
    }
}

/// The failure of a native check, if any.
pub open spec fn native_fault(result: Result<(), NativePluginError>) -> Option<NativeFailure> {
    match result {
        Ok(()) => None,
        Err(error) => Some(error@),
    }
}

impl NativePluginDescriptor {
    fn find_repeated(&self) -> (result: Option<usize>)
        ensures
            match result {
                Some(at) => at < self.dependencies@.len() && first_repeated(
                    self@.dependencies,
                    0,
                ) == Some(at as int),
                None => first_repeated(self@.dependencies, 0) is None,
            },
    {
        let ghost needs = self@.dependencies;
        let mut i: usize = 0;
        while i < self.dependencies.len()
            invariant
                i <= self.dependencies@.len(),
                needs == need_list(self.dependencies@),
                first_repeated(needs, 0) == first_repeated(needs, i as int),
            decreases self.dependencies@.len() - i,
        {
            let key = self.dependencies[i].key().diagnostic_key();
            assert(needs[i as int].key == self.dependencies@[i as int].spec_key());
            let mut k: usize = 0;
            while k < i
                invariant
                    k <= i < self.dependencies@.len(),
                    needs == need_list(self.dependencies@),
                    key@ == key_text(needs[i as int].key),
                    first_repeated(needs, 0) == first_repeated(needs, i as int),
                    forall|j: int| 0 <= j < k ==> key_text((#[trigger] needs[j]).key) != key@,
                decreases i - k,
            {
                let earlier = self.dependencies[k].key().diagnostic_key();
                assert(needs[k as int].key == self.dependencies@[k as int].spec_key());
                if earlier == key {
                    assert(repeated(needs, i as int));
                    return Some(i);
                }
                k += 1;
            }
            assert(!repeated(needs, i as int));
            i += 1;
        }
        None
    }

    /// Validates metadata before a plugin is allowed to run.
    pub fn validate(&self) -> (result: Result<(), NativePluginError>)
        ensures
            native_fault(result) == descriptor_fault(self@),
    {
        if is_blank(self.name.as_str()) {
            return Err(
                NativePluginError::Descriptor {
                    field: "name".to_owned(),
                    message: "must not be blank".to_owned(),
                },
            );
        }
        if is_blank(self.version.as_str()) {
            return Err(
                NativePluginError::Descriptor {
                    field: "version".to_owned(),
                    message: "must not be blank".to_owned(),
                },
            );
        }
        if let Some(at) = self.find_repeated() {
            let key = self.dependencies[at].key().diagnostic_key();
            assert(self@.dependencies[at as int].key == self.dependencies@[at as int].spec_key());
            return Err(
                NativePluginError::Descriptor {
                    field: "dependencies".to_owned(),
                    message: join2("contains duplicate dependency ", key.as_str()),
                },
            );
        }
        match self.config_schema.validate_schema("$schema") {
            Ok(()) => Ok(()),
            Err(error) => Err(NativePluginError::Config(error)),
        }
    }

    /// Validates a resolved configuration value against this descriptor's schema.
    pub fn validate_config(&self, config: &JsonValue) -> (result: Result<(), NativePluginError>)
        ensures
            native_fault(result) == native_config_fault(self@, config@),
    {
        match self.validate() {
            Ok(()) => {},
            Err(error) => return Err(error),
        }
        match self.config_schema.validate_value(config, "$") {
            Ok(()) => Ok(()),
            Err(error) => Err(NativePluginError::Config(error)),
        }
    }
}

/// A stable inspection view of the native package registry.
#[derive(Debug, PartialEq, Eq)]
pub struct NativePluginRuntimeSnapshot {
    pub packages: Vec<String>,
}

/// A registered package and the factory that makes its plugins.
#[derive(Debug)]
pub struct NativeFactory {
    pub package: String,
    pub factory: u64,
}

/// The packages that have a native factory, in name order.
#[derive(Debug)]
pub struct NativePluginRuntime {
    pub factories: Vec<NativeFactory>,
}

/// The models of a list of factories.
pub open spec fn factory_list(factories: Seq<NativeFactory>) -> Seq<(Seq<char>, u64)> {
    Seq::new(factories.len(), |i: int| (factories[i].package@, factories[i].factory))
}

impl View for NativePluginRuntime {
    type V = Seq<(Seq<char>, u64)>;

    open spec fn view(&self) -> Seq<(Seq<char>, u64)> {
        factory_list(self.factories@)
    }
}

impl Default for NativePluginRuntime {
    fn default() -> (result: Self)
        ensures
            result@ == Seq::<(Seq<char>, u64)>::empty(),
    {
        let result = NativePluginRuntime { factories: Vec::new() };
        assert(result@ =~= Seq::empty());
        result
    }
}

/// Why a package cannot be registered.
pub open spec fn registration_fault(factories: Seq<(Seq<char>, u64)>, package: Seq<char>) -> Option<
    NativeFailure,
> {
    if blank(package) {
        Some(
            NativeFailure::Runtime { package, message: "package specifier must not be blank"@ },
        )
    } else if crate::json::lookup(factories, package) is Some {
        Some(NativeFailure::Runtime { package, message: "a factory is already registered"@ })
    } else {
        None
    }
}

/// The package has no factory.
pub open spec fn unknown_package(package: Seq<char>) -> LoaderFailure {
    LoaderFailure::Validation("no native plugin factory is registered for "@ + package)
}

impl NativePluginRuntime {
    pub fn new() -> (result: Self)
        ensures
            result@ == Seq::<(Seq<char>, u64)>::empty(),
    {
        NativePluginRuntime::default()
    }

    /// The place of a package, or the place where it belongs.
    fn place(&self, package: &str) -> (result: Option<usize>)
        ensures
            match result {
                Some(at) => at < self.factories@.len() && crate::json::lookup(self@, package@)
                    == Some(self.factories@[at as int].factory),
                None => crate::json::lookup(self@, package@) is None,
            },
    {
        let ghost model = self@;
        let mut i: usize = 0;
        assert(model.subrange(0, model.len() as int) =~= model);
        while i < self.factories.len()
            invariant
                i <= self.factories@.len(),
                model == self@,
                crate::json::lookup(model, package@) == crate::json::lookup(
                    model.subrange(i as int, model.len() as int),
                    package@,
                ),
            decreases self.factories@.len() - i,
        {
            let ghost rest = model.subrange(i as int, model.len() as int);
            assert(rest[0] == model[i as int]);
            assert(rest.drop_first() =~= model.subrange(i + 1, model.len() as int));
            if same_text(self.factories[i].package.as_str(), package) {
                return Some(i);
            }
            i += 1;
        }
        assert(model.subrange(i as int, model.len() as int) =~= Seq::empty());
        None
    }

    /// Registers the factory of a package that has none yet.
    pub fn register(&mut self, package: String, factory: u64) -> (result: Result<
        (),
        NativePluginError,
    >)
        ensures
            native_fault(result) == registration_fault(old(self)@, package@),
            final(self)@ == (if result is Ok {
                crate::json::with_member(old(self)@, package@, factory)
            } else {
                old(self)@
            }),
    {
        if is_blank(package.as_str()) {
            return Err(
                NativePluginError::Runtime {
                    package,
                    message: "package specifier must not be blank".to_owned(),
                },
            );
        }
        if self.place(package.as_str()).is_some() {
            return Err(
                NativePluginError::Runtime {
                    package,
                    message: "a factory is already registered".to_owned(),
                },
            );
        }
        let ghost model = self@;
        let ghost name = package@;
        let mut i: usize = 0;
        assert(model.subrange(0, model.len() as int) =~= model);
        assert(model.subrange(0, 0) =~= Seq::empty());
        assert(Seq::<(Seq<char>, u64)>::empty() + crate::json::with_member(model, name, factory)
            =~= crate::json::with_member(model, name, factory));
        while i < self.factories.len() && !comes_before(
            package.as_str(),
            self.factories[i].package.as_str(),
        )
            invariant
                i <= self.factories@.len(),
                model == self@,
                *self == *old(self),
                name == package@,
                crate::json::lookup(model.subrange(i as int, model.len() as int), name) is None,
                crate::json::with_member(model, name, factory) == model.subrange(0, i as int)
                    + crate::json::with_member(
                    model.subrange(i as int, model.len() as int),
                    name,
                    factory,
                ),
            decreases self.factories@.len() - i,
        {
            let ghost rest = model.subrange(i as int, model.len() as int);
            assert(rest[0] == model[i as int]);
            assert(rest.drop_first() =~= model.subrange(i + 1, model.len() as int));
            assert(model.subrange(0, i + 1) =~= model.subrange(0, i as int) + seq![rest[0]]);
            assert(crate::json::with_member(model, name, factory) =~= model.subrange(0, i + 1)
                + crate::json::with_member(rest.drop_first(), name, factory));
            i += 1;
        }
        proof {
            let rest = model.subrange(i as int, model.len() as int);
            if rest.len() > 0 {
                assert(rest[0] == model[i as int]);
            } else {
                assert(rest =~= Seq::empty());
            }
            assert(crate::json::with_member(rest, name, factory) =~= seq![(name, factory)] + rest);
        }
        self.factories.insert(i, NativeFactory { package, factory });
        assert(self@ =~= model.subrange(0, i as int) + (seq![(name, factory)] + model.subrange(
            i as int,
            model.len() as int,
        )));
        Ok(())
    }

    /// The factory of a package.
    pub fn find(&self, package: &str) -> (result: Result<u64, LoaderError>)
        ensures
            match result {
                Ok(factory) => crate::json::lookup(self@, package@) == Some(factory),
                Err(error) => crate::json::lookup(self@, package@) is None && error@
                    == unknown_package(package@),
            },
    {
        match self.place(package) {
            Some(at) => Ok(self.factories[at].factory),
            None => Err(
                LoaderError::Validation(
                    join2("no native plugin factory is registered for ", package),
                ),
            ),
        }
    }

    /// The registered packages, in name order.
    pub fn snapshot(&self) -> (result: NativePluginRuntimeSnapshot)
        ensures
            text_list(result.packages@) == self@.map_values(|factory: (Seq<char>, u64)| factory.0),
    {
        let mut packages: Vec<String> = Vec::new();
        let mut i: usize = 0;
        while i < self.factories.len()
            invariant
                i <= self.factories@.len(),
                packages@.len() == i,
                forall|k: int|
                    0 <= k < i ==> (#[trigger] packages@[k])@ == self.factories@[k].package@,
            decreases self.factories@.len() - i,
        {
            packages.push(self.factories[i].package.clone());
            i += 1;
        }
        assert(text_list(packages@) =~= self@.map_values(
            |factory: (Seq<char>, u64)| factory.0,
        ));
        NativePluginRuntimeSnapshot { packages }
    }
}

}
