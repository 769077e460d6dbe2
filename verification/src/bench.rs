//! The benchmark's own rules: its command line, its frozen workload, and the
//! numbers that it reports.

use vstd::prelude::*;
use vstd::string::*;

use crate::document::{json_of_text, parse_json};
use crate::error::optional_text;
use crate::json::{
    find_member, json_list, json_members, lemma_array_view, lookup, set_member, with_member, Json,
    JsonValue, Member, Number,
};
use crate::lifecycle::{FiberState, RecordModel, Scope, ScopeTree};
use crate::text::{
    characters, decimal, decimal_text, has_prefix, is_digit, is_space, is_whitespace, join2, join3,
    numeric, pieces, quoted, quoted_text, same_text, split, starts_with, text_list,
};

verus! {

pub const DEFAULT_SAMPLES: usize = 15;

pub const MAX_SAMPLES: usize = 100;

pub const DEFAULT_BATCH: usize = 256;

pub const MAX_BATCH: usize = 1024;

pub const LOADER_ENTRIES: usize = 16;

pub const ROOT_CHILDREN: usize = 32;

/// The schema of a paired workload.
pub const PAIRED_WORKLOAD_SCHEMA: &'static str = "tessivum.core-benchmark-workload/v1";

/// The number that digits write, in base ten.
pub open spec fn digits_value(digits: Seq<char>) -> nat
    decreases digits.len(),
{
    if digits.len() == 0 {
        0
    } else {
        10 * digits_value(digits.drop_last()) + ((digits.last() as u32) - 48) as nat
    }
}

/// Digits and nothing else, at least one.
pub open spec fn all_digits(text: Seq<char>) -> bool {
    text.len() > 0 && forall|i: int| 0 <= i < text.len() ==> is_digit(#[trigger] text[i])
}

/// A text without a plus sign in front.
pub open spec fn unsigned_part(text: Seq<char>) -> Seq<char> {
    if text.len() > 0 && text[0] == '+' {
        text.subrange(1, text.len() as int)
    } else {
        text
    }
}

/// Why a text is no number.
#[derive(Clone, Copy, Debug, PartialEq, Eq, Structural)]
pub enum NumberFault {
    Empty,
    InvalidDigit,
    TooLarge,
}

/// The number that a text writes: digits, perhaps with a plus sign in front.
pub open spec fn number_of(text: Seq<char>) -> Result<u64, NumberFault> {
    let digits = unsigned_part(text);
    if text.len() == 0 {
        Err(NumberFault::Empty)
    } else if !all_digits(digits) {
        Err(NumberFault::InvalidDigit)
    } else if digits_value(digits) > u64::MAX {
        Err(NumberFault::TooLarge)
    } else {
        Ok(digits_value(digits) as u64)
    }
}

proof fn more_digits_are_more(digits: Seq<char>, count: int)
    requires
        0 <= count <= digits.len(),
        forall|i: int| 0 <= i < digits.len() ==> is_digit(#[trigger] digits[i]),
    ensures
        digits_value(digits.subrange(0, count)) <= digits_value(digits),
    decreases digits.len() - count,
{
    if count < digits.len() {
        more_digits_are_more(digits, count + 1);
        let longer = digits.subrange(0, count + 1);
        assert(longer.drop_last() =~= digits.subrange(0, count));
        assert(is_digit(digits[count]));
    } else {
        assert(digits.subrange(0, count) =~= digits);
    }
}

/// Reads a number.
pub fn parse_number(text: &str) -> (result: Result<u64, NumberFault>)
    ensures
        result == number_of(text@),
{
    let chars = characters(text);
    if chars.len() == 0 {
        return Err(NumberFault::Empty);
    }
    let start: usize = if chars[0] == '+' {
        1
    } else {
        0
    };
    let ghost digits = unsigned_part(text@);
    assert(digits =~= text@.subrange(start as int, text@.len() as int));
    if start == chars.len() {
        return Err(NumberFault::InvalidDigit);
    }
    let mut i: usize = start;
    while i < chars.len()
        invariant
            start <= i <= chars@.len(),
            chars@ == text@,
            text@.len() > 0,
            digits == unsigned_part(text@),
            digits == text@.subrange(start as int, text@.len() as int),
            forall|k: int| 0 <= k < i - start ==> is_digit(#[trigger] digits[k]),
        decreases chars@.len() - i,
    {
        assert(digits[i - start] == chars@[i as int]);
        if !numeric(chars[i]) {
            return Err(NumberFault::InvalidDigit);
        }
        i += 1;
    }
    let mut value: u64 = 0;
    let mut k: usize = start;
    assert(digits.subrange(0, 0) =~= Seq::empty());
    while k < chars.len()
        invariant
            start <= k <= chars@.len(),
            chars@ == text@,
            text@.len() > 0,
            digits == unsigned_part(text@),
            digits == text@.subrange(start as int, text@.len() as int),
            all_digits(digits),
            value == digits_value(digits.subrange(0, k - start)),
        decreases chars@.len() - k,
    {
        let c = chars[k];
        assert(c == digits[k - start]);
        assert(is_digit(c));
        let digit: u64 = (c as u32 - 48) as u64;
        proof {
            let longer = digits.subrange(0, k - start + 1);
            assert(longer.drop_last() =~= digits.subrange(0, k - start));
            assert(longer.last() == c);
            more_digits_are_more(digits, k - start + 1);
        }
        if value > (u64::MAX - digit) / 10 {
            return Err(NumberFault::TooLarge);
        }
        value = value * 10 + digit;
        k += 1;
    }
    assert(digits.subrange(0, digits.len() as int) =~= digits);
    Ok(value)
}

/// What the benchmark was asked to do.
#[derive(Debug, PartialEq, Eq)]
pub struct Options {
    pub samples: usize,
    pub batch: usize,
    pub wasm: Option<String>,
    pub node_host: String,
    pub paired_only: bool,
    pub workload: Option<String>,
}

/// The model of options.
#[verifier::ext_equal]
pub struct BenchModel {
    pub samples: usize,
    pub batch: usize,
    pub wasm: Option<Seq<char>>,
    pub node_host: Seq<char>,
    pub paired_only: bool,
    pub workload: Option<Seq<char>>,
}

impl View for Options {
    type V = BenchModel;

    open spec fn view(&self) -> BenchModel {
        BenchModel {
            samples: self.samples,
            batch: self.batch,
            wasm: optional_text(self.wasm),
            node_host: self.node_host@,
            paired_only: self.paired_only,
            workload: optional_text(self.workload),
        }
    }
}

/// What a command line asks for.
#[derive(Debug)]
pub enum Request {
    Help,
    Run(Options),
}

/// The model of a request.
#[verifier::ext_equal]
pub enum RequestModel {
    Help,
    Run(BenchModel),
}

impl View for Request {
    type V = RequestModel;

    open spec fn view(&self) -> RequestModel {
        match self {
            Request::Help => RequestModel::Help,
            Request::Run(options) => RequestModel::Run(options@),
        }
    }
}

/// The models of arguments; those that are not UTF-8 are absent.
pub open spec fn argument_list(arguments: Seq<Option<String>>) -> Seq<Option<Seq<char>>> {
    Seq::new(arguments.len(), |i: int| optional_text(arguments[i]))
}

/// The value that follows a flag.
pub open spec fn value_at(arguments: Seq<Option<Seq<char>>>, at: int, flag: Seq<char>) -> Result<
    Seq<char>,
    Seq<char>,
> {
    if at < 0 || at >= arguments.len() {
        Err(flag + " requires a value"@)
    } else {
        match arguments[at] {
            Some(value) => Ok(value),
            None => Err(flag + " value must be valid UTF-8"@),
        }
    }
}

/// The number from one to `maximum` that follows a flag.
pub open spec fn count_at(
    arguments: Seq<Option<Seq<char>>>,
    at: int,
    flag: Seq<char>,
    maximum: usize,
) -> Result<usize, Seq<char>> {
    match value_at(arguments, at, flag) {
        Err(message) => Err(message),
        Ok(value) => match number_of(value) {
            Err(_) => Err(flag + " must be an integer"@),
            Ok(number) => if number > usize::MAX {
                Err(flag + " must be an integer"@)
            } else if 1 <= number <= maximum {
                Ok(number as usize)
            } else {
                Err(flag + " must be in 1..="@ + decimal_text(maximum as nat))
            },
        },
    }
}

/// The request of a complete command line.
pub open spec fn completed(options: BenchModel) -> Result<RequestModel, Seq<char>> {
    if options.paired_only {
        if options.workload is None {
            Err("--paired-only requires --workload <path>"@)
        } else {
            Ok(RequestModel::Run(options))
        }
    } else if options.workload is Some {
        Err("--workload requires --paired-only"@)
    } else if options.wasm is None {
        Err("--wasm must name the built Rust guest module"@)
    } else {
        Ok(RequestModel::Run(options))
    }
}

/// What the arguments from `at` on make of options.
pub open spec fn parsed(arguments: Seq<Option<Seq<char>>>, at: int, options: BenchModel) -> Result<
    RequestModel,
    Seq<char>,
>
    decreases arguments.len() - at,
{
    if at < 0 || at >= arguments.len() {
        completed(options)
    } else {
        match arguments[at] {
            None => Err("benchmark arguments must be valid UTF-8"@),
            Some(argument) => if argument == "--samples"@ {
                match count_at(arguments, at + 1, argument, MAX_SAMPLES) {
                    Err(message) => Err(message),
                    Ok(samples) => parsed(arguments, at + 2, BenchModel { samples, ..options }),
                }
            } else if argument == "--batch"@ {
                match count_at(arguments, at + 1, argument, MAX_BATCH) {
                    Err(message) => Err(message),
                    Ok(batch) => parsed(arguments, at + 2, BenchModel { batch, ..options }),
                }
            } else if argument == "--wasm"@ {
                match value_at(arguments, at + 1, argument) {
                    Err(message) => Err(message),
                    Ok(path) => parsed(
                        arguments,
                        at + 2,
                        BenchModel { wasm: Some(path), ..options },
                    ),
                }
            } else if argument == "--node-host"@ {
                match value_at(arguments, at + 1, argument) {
                    Err(message) => Err(message),
                    Ok(path) => parsed(
                        arguments,
                        at + 2,
                        BenchModel { node_host: path, ..options },
                    ),
                }
            } else if argument == "--paired-only"@ {
                parsed(arguments, at + 1, BenchModel { paired_only: true, ..options })
            } else if argument == "--workload"@ {
                match value_at(arguments, at + 1, argument) {
                    Err(message) => Err(message),
                    Ok(path) => parsed(
                        arguments,
                        at + 2,
                        BenchModel { workload: Some(path), ..options },
                    ),
                }
            } else if argument == "--help"@ || argument == "-h"@ {
                Ok(RequestModel::Help)
            } else {
                Err(
                    "unknown argument "@ + quoted_text(argument) + "; pass --help for usage"@,
                )
            },
        }
    }
}

/// The options before any argument was read.
pub open spec fn default_options() -> BenchModel {
    BenchModel {
        samples: DEFAULT_SAMPLES,
        batch: DEFAULT_BATCH,
        wasm: None,
        node_host: "bun"@,
        paired_only: false,
        workload: None,
    }
}

fn next_argument(arguments: &Vec<Option<String>>, at: usize, flag: &str) -> (result: Result<
    String,
    String,
>)
    ensures
        value_at(argument_list(arguments@), at as int, flag@) == (match result {
            Ok(value) => Ok::<Seq<char>, Seq<char>>(value@),
            Err(message) => Err::<Seq<char>, Seq<char>>(message@),
        }),
{
    if at >= arguments.len() {
        return Err(join2(flag, " requires a value"));
    }
    assert(argument_list(arguments@)[at as int] == optional_text(arguments@[at as int]));
    match &arguments[at] {
        Some(value) => Ok(value.clone()),
        None => Err(join2(flag, " value must be valid UTF-8")),
    }
}

fn parse_bounded_argument(
    arguments: &Vec<Option<String>>,
    at: usize,
    flag: &str,
    maximum: usize,
) -> (result: Result<usize, String>)
    ensures
        count_at(argument_list(arguments@), at as int, flag@, maximum) == (match result {
            Ok(value) => Ok::<usize, Seq<char>>(value),
            Err(message) => Err::<usize, Seq<char>>(message@),
        }),
{
    let value = match next_argument(arguments, at, flag) {
        Ok(value) => value,
        Err(message) => return Err(message),
    };
    let number = match parse_number(value.as_str()) {
        Ok(number) => number,
        Err(_) => return Err(join2(flag, " must be an integer")),
    };
    if number > usize::MAX as u64 {
        return Err(join2(flag, " must be an integer"));
    }
    if number < 1 || number > maximum as u64 {
        return Err(join3(flag, " must be in 1..=", decimal(maximum as u64).as_str()));
    }
    Ok(number as usize)
}

fn complete(options: Options) -> (result: Result<Request, String>)
    ensures
        completed(options@) == (match result {
            Ok(request) => Ok::<RequestModel, Seq<char>>(request@),
            Err(message) => Err::<RequestModel, Seq<char>>(message@),
        }),
{
    if options.paired_only {
        if options.workload.is_none() {
            return Err("--paired-only requires --workload <path>".to_owned());
        }
        return Ok(Request::Run(options));
    }
    if options.workload.is_some() {
        return Err("--workload requires --paired-only".to_owned());
    }
    if options.wasm.is_none() {
        return Err("--wasm must name the built Rust guest module".to_owned());
    }
    Ok(Request::Run(options))
}

/// The outcome of reading a command line.
pub open spec fn request_outcome(result: Result<Request, String>) -> Result<
    RequestModel,
    Seq<char>,
> {
    match result {
        Ok(request) => Ok(request@),
        Err(message) => Err(message@),
    }
}

/// Reads the arguments of the benchmark; those that are not UTF-8 are absent.
pub fn parse_options(arguments: &Vec<Option<String>>) -> (result: Result<Request, String>)
    ensures
        request_outcome(result) == parsed(argument_list(arguments@), 0, default_options()),
{
    let ghost model = argument_list(arguments@);
    let mut options = Options {
        samples: DEFAULT_SAMPLES,
        batch: DEFAULT_BATCH,
        wasm: None,
        node_host: "bun".to_owned(),
        paired_only: false,
        workload: None,
    };
    let mut at: usize = 0;
    while at < arguments.len()
        invariant
            model == argument_list(arguments@),
            parsed(model, 0, default_options()) == parsed(model, at as int, options@),
        decreases arguments@.len() - at,
    {
        assert(model[at as int] == optional_text(arguments@[at as int]));
        assert(at < arguments.len());
        let argument = match &arguments[at] {
            Some(argument) => argument.as_str(),
            None => return Err("benchmark arguments must be valid UTF-8".to_owned()),
        };
        if same_text(argument, "--paired-only") {
            proof {
                flags_differ();
            }
            options.paired_only = true;
            at = at + 1;
            continue;
        }
        if same_text(argument, "--help") || same_text(argument, "-h") {
            proof {
                flags_differ();
            }
            return Ok(Request::Help);
        }
        if same_text(argument, "--samples") {
            match parse_bounded_argument(arguments, at + 1, argument, MAX_SAMPLES) {
                Ok(samples) => {
                    options.samples = samples;
                },
                Err(message) => return Err(message),
            }
        } else if same_text(argument, "--batch") {
            match parse_bounded_argument(arguments, at + 1, argument, MAX_BATCH) {
                Ok(batch) => {
                    options.batch = batch;
                },
                Err(message) => return Err(message),
            }
        } else if same_text(argument, "--wasm") {
            match next_argument(arguments, at + 1, argument) {
                Ok(path) => {
                    options.wasm = Some(path);
                },
                Err(message) => return Err(message),
            }
        } else if same_text(argument, "--node-host") {
            match next_argument(arguments, at + 1, argument) {
                Ok(path) => {
                    options.node_host = path;
                },
                Err(message) => return Err(message),
            }
        } else if same_text(argument, "--workload") {
            match next_argument(arguments, at + 1, argument) {
                Ok(path) => {
                    options.workload = Some(path);
                },
                Err(message) => return Err(message),
            }
        } else {
            return Err(
                join3("unknown argument ", quoted(argument).as_str(), "; pass --help for usage"),
            );
        }
        assert(at + 1 < arguments.len());
        at = at + 2;
    }
    complete(options)
}

/// The flags differ in the length of their names, or in the third letter.
proof fn flags_differ()
    ensures
        "--paired-only"@.len() == 13,
        "--samples"@.len() == 9,
        "--batch"@.len() == 7,
        "--wasm"@.len() == 6,
        "--node-host"@.len() == 11,
        "--workload"@.len() == 10,
        "--help"@.len() == 6,
        "-h"@.len() == 2,
        "--wasm"@[2] == 'w' && "--help"@[2] == 'h',
{
    reveal_strlit("--paired-only");
    reveal_strlit("--samples");
    reveal_strlit("--batch");
    reveal_strlit("--wasm");
    reveal_strlit("--node-host");
    reveal_strlit("--workload");
    reveal_strlit("--help");
    reveal_strlit("-h");
}

/// Checks the file that the options name; `exists` tells whether it is there.
pub fn check_file(options: &Options, exists: bool) -> (result: Result<(), String>)
    requires
        completed(options@) is Ok,
    ensures
        match result {
            Ok(()) => exists,
            Err(message) => !exists && message@ == (if options@.paired_only {
                "workload does not exist: "@ + options@.workload->0
            } else {
                "WASM guest does not exist: "@ + options@.wasm->0
            }),
        },
{
    if exists {
        return Ok(());
    }
    if options.paired_only {
        if let Some(path) = &options.workload {
            return Err(join2("workload does not exist: ", path.as_str()));
        }
    }
    if let Some(path) = &options.wasm {
        return Err(join2("WASM guest does not exist: ", path.as_str()));
    }
    Ok(())
}

/// The frozen workload of a paired benchmark.
#[derive(Clone, Copy, Debug, PartialEq, Eq, Structural)]
pub struct PairedWorkload {
    pub scopes: usize,
    pub service_lookups: usize,
    pub event_emits: usize,
    pub loader_entries: usize,
    pub root_children: usize,
}

/// The one workload that is accepted.
pub open spec fn frozen_workload() -> PairedWorkload {
    PairedWorkload {
        scopes: 1000,
        service_lookups: 256,
        event_emits: 256,
        loader_entries: LOADER_ENTRIES,
        root_children: ROOT_CHILDREN,
    }
}

/// The key is a field of a workload.
pub open spec fn is_workload_key(key: Seq<char>) -> bool {
    key == "schema"@ || key == "scopes"@ || key == "serviceLookups"@ || key == "eventEmits"@ || key
        == "loaderEntries"@ || key == "rootChildren"@
}

/// The first key in `members[from..]` that is no field of a workload.
pub open spec fn stray_workload_key(members: Seq<(Seq<char>, Json)>, from: int) -> Option<Seq<char>>
    decreases members.len() - from,
{
    if from < 0 || from >= members.len() {
        None
    } else if !is_workload_key(members[from].0) {
        Some(members[from].0)
    } else {
        stray_workload_key(members, from + 1)
    }
}

/// Why a count of a workload is refused: it must be the frozen one.
pub open spec fn count_fault(
    members: Seq<(Seq<char>, Json)>,
    field: Seq<char>,
    expected: usize,
) -> Option<Seq<char>> {
    match lookup(members, field) {
        Some(Json::Number(Number::Unsigned(value))) => if value > usize::MAX {
            Some("paired workload "@ + field + " exceeds platform usize"@)
        } else if value != expected {
            Some(
                "paired workload "@ + field + " must be the frozen value "@ + decimal_text(
                    expected as nat,
                ),
            )
        } else {
            None
        },
        _ => Some("paired workload "@ + field + " must be an integer"@),
    }
}

/// Why a workload is refused: the first rule, in order, that it breaks.
pub open spec fn workload_fault(value: Json) -> Option<Seq<char>> {
    match value {
        Json::Object(members) => match stray_workload_key(members, 0) {
            Some(key) => Some("paired workload has unexpected field "@ + quoted_text(key)),
            None => if lookup(members, "schema"@) != Some(Json::String(PAIRED_WORKLOAD_SCHEMA@)) {
                Some("paired workload schema must be \"tessivum.core-benchmark-workload/v1\""@)
            } else {
                match count_fault(members, "scopes"@, 1000) {
                    Some(message) => Some(message),
                    None => match count_fault(members, "serviceLookups"@, 256) {
                        Some(message) => Some(message),
                        None => match count_fault(members, "eventEmits"@, 256) {
                            Some(message) => Some(message),
                            None => match count_fault(members, "loaderEntries"@, LOADER_ENTRIES) {
                                Some(message) => Some(message),
                                None => count_fault(members, "rootChildren"@, ROOT_CHILDREN),
                            },
                        },
                    },
                }
            },
        },
        _ => Some("paired workload must be a JSON object"@),
    }
}

fn paired_workload_count(members: &Vec<Member>, field: &str, expected: usize) -> (result: Result<
    usize,
    String,
>)
    ensures
        match result {
            Ok(value) => count_fault(json_members(members@), field@, expected) is None && value
                == expected,
            Err(message) => count_fault(json_members(members@), field@, expected) == Some(
                message@,
            ),
        },
{
    let value = match find_member(members, field) {
        Some(at) => match &members[at].value {
            JsonValue::Number(Number::Unsigned(value)) => *value,
            _ => return Err(join3("paired workload ", field, " must be an integer")),
        },
        None => return Err(join3("paired workload ", field, " must be an integer")),
    };
    if value > usize::MAX as u64 {
        return Err(join3("paired workload ", field, " exceeds platform usize"));
    }
    if value as usize != expected {
        let mut message = join3("paired workload ", field, " must be the frozen value ");
        message.append(decimal(expected as u64).as_str());
        return Err(message);
    }
    Ok(value as usize)
}

/// The outcome of reading a workload.
pub open spec fn workload_outcome(result: Result<PairedWorkload, String>) -> Result<
    PairedWorkload,
    Seq<char>,
> {
    match result {
        Ok(workload) => Ok(workload),
        Err(message) => Err(message@),
    }
}

/// Reads a workload.
pub fn accept_workload(value: &JsonValue) -> (result: Result<PairedWorkload, String>)
    ensures
        workload_outcome(result) == (match workload_fault(value@) {
            Some(message) => Err::<PairedWorkload, Seq<char>>(message),
            None => Ok::<PairedWorkload, Seq<char>>(frozen_workload()),
        }),
{
    proof {
        lemma_array_view(*value);
    }
    let members = match value {
        JsonValue::Object(members) => members,
        _ => return Err("paired workload must be a JSON object".to_owned()),
    };
    let ghost model = json_members(members@);
    let mut i: usize = 0;
    while i < members.len()
        invariant
            i <= members@.len(),
            model == json_members(members@),
            value@ == Json::Object(model),
            stray_workload_key(model, 0) == stray_workload_key(model, i as int),
        decreases members@.len() - i,
    {
        let key = members[i].key.as_str();
        assert(model[i as int].0 == key@);
        if !(same_text(key, "schema") || same_text(key, "scopes") || same_text(
            key,
            "serviceLookups",
        ) || same_text(key, "eventEmits") || same_text(key, "loaderEntries") || same_text(
            key,
            "rootChildren",
        )) {
            return Err(
                join2("paired workload has unexpected field ", quoted(key).as_str()),
            );
        }
        i += 1;
    }
    let named = match find_member(members, "schema") {
        Some(at) => match members[at].value.as_str() {
            Some(text) => same_text(text, PAIRED_WORKLOAD_SCHEMA),
            None => false,
        },
        None => false,
    };
    if !named {
        return Err(
            "paired workload schema must be \"tessivum.core-benchmark-workload/v1\"".to_owned(),
        );
    }
    let scopes = match paired_workload_count(members, "scopes", 1000) {
        Ok(count) => count,
        Err(message) => return Err(message),
    };
    let service_lookups = match paired_workload_count(members, "serviceLookups", 256) {
        Ok(count) => count,
        Err(message) => return Err(message),
    };
    let event_emits = match paired_workload_count(members, "eventEmits", 256) {
        Ok(count) => count,
        Err(message) => return Err(message),
    };
    let loader_entries = match paired_workload_count(members, "loaderEntries", LOADER_ENTRIES) {
        Ok(count) => count,
        Err(message) => return Err(message),
    };
    let root_children = match paired_workload_count(members, "rootChildren", ROOT_CHILDREN) {
        Ok(count) => count,
        Err(message) => return Err(message),
    };
    Ok(PairedWorkload { scopes, service_lookups, event_emits, loader_entries, root_children })
}

/// Reads a workload from the text of the file `path`.
pub fn load_paired_workload(path: &str, source: &str) -> (result: Result<PairedWorkload, String>)
    ensures
        workload_outcome(result) == (match json_of_text(source@) {
            Err(message) => Err::<PairedWorkload, Seq<char>>(
                "invalid workload JSON "@ + path@ + ": "@ + message,
            ),
            Ok(value) => match workload_fault(value) {
                Some(message) => Err::<PairedWorkload, Seq<char>>(message),
                None => Ok::<PairedWorkload, Seq<char>>(frozen_workload()),
            },
        }),
{
    match parse_json(source) {
        Ok(value) => accept_workload(&value),
        Err(message) => {
            let mut text = join3("invalid workload JSON ", path, ": ");
            text.append(message.as_str());
            Err(text)
        },
    }
}

/// The number of operations per second, rounded down.
pub open spec fn throughput(operations: nat, nanos: nat) -> nat {
    operations * 1_000_000_000 / nanos
}

/// The operations per second of a sample.
pub fn operations_per_second(operations: usize, elapsed_nanos: u128) -> (result: Result<
    u64,
    String,
>)
    ensures
        match result {
            Ok(rate) => elapsed_nanos > 0 && rate == throughput(
                operations as nat,
                elapsed_nanos as nat,
            ),
            Err(message) => if elapsed_nanos == 0 {
                message@ == "timer resolution produced a zero-duration sample; increase --batch"@
            } else {
                throughput(operations as nat, elapsed_nanos as nat) > u64::MAX && message@
                    == "throughput exceeds u64 operations/s"@
            },
        },
{
    if elapsed_nanos == 0 {
        return Err(
            "timer resolution produced a zero-duration sample; increase --batch".to_owned(),
        );
    }
    let count = operations as u128;
    assert(count * 1_000_000_000 <= 0xffff_ffff_ffff_ffff * 1_000_000_000) by (nonlinear_arith)
        requires
            count <= 0xffff_ffff_ffff_ffff,
    ;
    let rate = count * 1_000_000_000 / elapsed_nanos;
    if rate > u64::MAX as u128 {
        return Err("throughput exceeds u64 operations/s".to_owned());
    }
    Ok(rate as u64)
}

/// A duration in nanoseconds, as far as it fits.
pub fn nanoseconds(duration_nanos: u128) -> (result: Result<u64, String>)
    ensures
        match result {
            Ok(nanos) => nanos == duration_nanos,
            Err(message) => duration_nanos > u64::MAX && message@
                == "sample duration exceeds u64 nanoseconds"@,
        },
{
    if duration_nanos > u64::MAX as u128 {
        return Err("sample duration exceeds u64 nanoseconds".to_owned());
    }
    Ok(duration_nanos as u64)
}

/// The queue of a bridge that takes a batch at once.
pub fn queue_capacity(batch: usize) -> (result: usize)
    ensures
        result == (if batch > usize::MAX - 8 {
            usize::MAX
        } else if batch + 8 < 64 {
            64
        } else {
            (batch + 8) as usize
        }),
{
    if batch > usize::MAX - 8 {
        return usize::MAX;
    }
    let wanted = batch + 8;
    if wanted < 64 {
        64
    } else {
        wanted
    }
}

/// Numbers in order, after one more is put where it belongs.
pub open spec fn put_in(sorted: Seq<u64>, value: u64) -> Seq<u64>
    decreases sorted.len(),
{
    if sorted.len() == 0 {
        seq![value]
    } else if sorted.last() <= value {
        sorted.push(value)
    } else {
        put_in(sorted.drop_last(), value).push(sorted.last())
    }
}

/// The first `count` numbers in order.
pub open spec fn ranked(values: Seq<u64>, count: int) -> Seq<u64>
    decreases count,
{
    if count <= 0 || count > values.len() {
        Seq::empty()
    } else {
        put_in(ranked(values, count - 1), values[count - 1])
    }
}

/// Numbers in increasing order.
pub open spec fn increasing(values: Seq<u64>) -> bool {
    forall|i: int, j: int| 0 <= i < j < values.len() ==> values[i] <= values[j]
}

proof fn put_in_facts(sorted: Seq<u64>, value: u64)
    ensures
        put_in(sorted, value).len() == sorted.len() + 1,
        put_in(sorted, value).to_multiset() == sorted.to_multiset().insert(value),
        increasing(sorted) ==> increasing(put_in(sorted, value)),
        forall|i: int|
            0 <= i < put_in(sorted, value).len() ==> (#[trigger] put_in(sorted, value)[i]) == value
                || sorted.contains(put_in(sorted, value)[i]),
    decreases sorted.len(),
{
    broadcast use vstd::seq_lib::group_to_multiset_ensures;

    let result = put_in(sorted, value);
    if sorted.len() == 0 {
        assert(sorted =~= Seq::empty());
        assert(seq![value] =~= sorted.push(value));
    } else if sorted.last() <= value {
        assert forall|i: int| 0 <= i < result.len() implies (#[trigger] result[i]) == value
            || sorted.contains(result[i]) by {
            if i < sorted.len() {
                assert(sorted[i] == result[i]);
            }
        }
        if increasing(sorted) {
            assert forall|i: int, j: int| 0 <= i < j < result.len() implies result[i]
                <= result[j] by {
                assert(sorted[sorted.len() - 1] <= value);
                if i < sorted.len() - 1 {
                    assert(sorted[i] <= sorted[sorted.len() - 1]);
                }
            }
        }
    } else {
        let shorter = sorted.drop_last();
        let last = sorted.last();
        put_in_facts(shorter, value);
        let inner = put_in(shorter, value);
        assert(shorter.push(last) =~= sorted);
        assert(result.to_multiset() =~= sorted.to_multiset().insert(value));
        assert forall|i: int| 0 <= i < result.len() implies (#[trigger] result[i]) == value
            || sorted.contains(result[i]) by {
            if i < inner.len() {
                assert(result[i] == inner[i]);
                if inner[i] != value {
                    let k = choose|k: int| 0 <= k < shorter.len() && shorter[k] == inner[i];
                    assert(sorted[k] == inner[i]);
                }
            } else {
                assert(sorted[sorted.len() - 1] == result[i]);
            }
        }
        if increasing(sorted) {
            assert(increasing(shorter)) by {
                assert forall|i: int, j: int| 0 <= i < j < shorter.len() implies shorter[i]
                    <= shorter[j] by {
                    assert(sorted[i] <= sorted[j]);
                }
            }
            assert forall|i: int, j: int| 0 <= i < j < result.len() implies result[i]
                <= result[j] by {
                if j < inner.len() {
                    assert(inner[i] <= inner[j]);
                } else if inner[i] != value {
                    let k = choose|k: int| 0 <= k < shorter.len() && shorter[k] == inner[i];
                    assert(sorted[k] <= sorted[sorted.len() - 1]);
                }
            }
        }
    }
}

/// Ranking orders the numbers and neither adds nor drops one.
pub proof fn ranking_sorts(values: Seq<u64>, count: int)
    requires
        0 <= count <= values.len(),
    ensures
        increasing(ranked(values, count)),
        ranked(values, count).len() == count,
        ranked(values, count).to_multiset() == values.subrange(0, count).to_multiset(),
    decreases count,
{
    broadcast use vstd::seq_lib::group_to_multiset_ensures;

    if count > 0 {
        ranking_sorts(values, count - 1);
        put_in_facts(ranked(values, count - 1), values[count - 1]);
        assert(values.subrange(0, count) =~= values.subrange(0, count - 1).push(
            values[count - 1],
        ));
    } else {
        assert(values.subrange(0, 0) =~= Seq::empty());
    }
}

fn insert_ranked(sorted: &mut Vec<u64>, value: u64)
    ensures
        final(sorted)@ == put_in(old(sorted)@, value),
{
    let ghost start = sorted@;
    let mut at: usize = sorted.len();
    assert(start.subrange(0, start.len() as int) =~= start);
    assert(start.subrange(start.len() as int, start.len() as int) =~= Seq::empty());
    assert(put_in(start, value) + Seq::<u64>::empty() =~= put_in(start, value));
    while at > 0 && sorted[at - 1] > value
        invariant
            at <= start.len(),
            sorted@ == start,
            put_in(start, value) == put_in(start.subrange(0, at as int), value) + start.subrange(
                at as int,
                start.len() as int,
            ),
        decreases at,
    {
        proof {
            let part = start.subrange(0, at as int);
            assert(part.last() == start[at - 1]);
            assert(part.drop_last() =~= start.subrange(0, at - 1));
            let inner = put_in(part.drop_last(), value);
            assert(inner.push(part.last()) + start.subrange(at as int, start.len() as int)
                =~= inner + start.subrange(at - 1, start.len() as int));
        }
        at -= 1;
    }
    proof {
        let part = start.subrange(0, at as int);
        if at > 0 {
            assert(part.last() == start[at - 1]);
        } else {
            assert(part =~= Seq::empty());
        }
        assert(put_in(part, value) =~= part.push(value));
    }
    sorted.insert(at, value);
    assert(sorted@ =~= start.subrange(0, at as int).push(value) + start.subrange(
        at as int,
        start.len() as int,
    ));
}

/// The place of the value that 95 of 100 samples do not exceed.
pub open spec fn p95_place(count: nat) -> int {
    (count * 95 + 99) / 100 - 1
}

/// The number as a document shows it.
pub open spec fn number_json(value: nat) -> Json {
    Json::Number(Number::Unsigned(value as u64))
}

/// What is reported of samples.
pub open spec fn summary_of(
    name: Seq<char>,
    unit: Seq<char>,
    operations: nat,
    samples: Seq<u64>,
    note: Option<Seq<char>>,
) -> Json {
    let sorted = ranked(samples, samples.len() as int);
    let none = Seq::<(Seq<char>, Json)>::empty();
    let named = with_member(none, "name"@, Json::String(name));
    let measured = with_member(named, "unit"@, Json::String(unit));
    let counted = with_member(measured, "operationsPerSample"@, number_json(operations));
    let listed = with_member(
        counted,
        "samples"@,
        Json::Array(Seq::new(samples.len(), |i: int| number_json(samples[i] as nat))),
    );
    let halved = with_member(
        listed,
        "median"@,
        number_json(sorted[samples.len() as int / 2] as nat),
    );
    let high = with_member(halved, "p95"@, number_json(sorted[p95_place(samples.len())] as nat));
    let low = with_member(high, "min"@, number_json(sorted[0] as nat));
    let full = with_member(low, "max"@, number_json(sorted.last() as nat));
    Json::Object(
        match note {
            Some(note) => with_member(full, "note"@, Json::String(note)),
            None => full,
        },
    )
}

fn set_number(members: &mut Vec<Member>, key: &str, value: u64)
    ensures
        json_members(final(members)@) == with_member(
            json_members(old(members)@),
            key@,
            number_json(value as nat),
        ),
{
    set_member(members, key.to_owned(), JsonValue::Number(Number::Unsigned(value)));
}

fn number_values(samples: &Vec<u64>) -> (result: JsonValue)
    ensures
        result@ == Json::Array(
            Seq::new(samples@.len(), |i: int| number_json(samples@[i] as nat)),
        ),
{
    let mut values: Vec<JsonValue> = Vec::new();
    let mut i: usize = 0;
    while i < samples.len()
        invariant
            i <= samples@.len(),
            values@.len() == i,
            forall|k: int|
                0 <= k < i ==> (#[trigger] values@[k])@ == number_json(samples@[k] as nat),
        decreases samples@.len() - i,
    {
        values.push(JsonValue::Number(Number::Unsigned(samples[i])));
        i += 1;
    }
    let result = JsonValue::Array(values);
    proof {
        lemma_array_view(result);
        assert(json_list(values@) =~= Seq::new(
            samples@.len(),
            |i: int| number_json(samples@[i] as nat),
        ));
    }
    result
}

/// Reports samples: all of them, their middle, their upper bound for 95 of
/// 100, and their extremes.
pub fn summarize(
    name: &str,
    unit: &str,
    operations_per_sample: usize,
    samples: &Vec<u64>,
    note: Option<&str>,
) -> (result: Result<JsonValue, String>)
    requires
        samples@.len() * 95 + 99 <= usize::MAX,
    ensures
        match result {
            Ok(report) => samples@.len() > 0 && report@ == summary_of(
                name@,
                unit@,
                operations_per_sample as nat,
                samples@,
                match note {
                    Some(note) => Some(note@),
                    None => None,
                },
            ),
            Err(message) => samples@.len() == 0 && message@ == name@ + " collected no samples"@,
        },
{
    if samples.len() == 0 {
        return Err(join2(name, " collected no samples"));
    }
    let count = samples.len();
    let mut sorted: Vec<u64> = Vec::new();
    let mut i: usize = 0;
    while i < count
        invariant
            i <= count == samples@.len(),
            sorted@ == ranked(samples@, i as int),
        decreases count - i,
    {
        insert_ranked(&mut sorted, samples[i]);
        i += 1;
    }
    proof {
        ranking_sorts(samples@, count as int);
    }
    let p95: usize = (count * 95 + 99) / 100 - 1;
    let mut members: Vec<Member> = Vec::new();
    assert(json_members(members@) =~= Seq::empty());
    set_member(&mut members, "name".to_owned(), JsonValue::String(name.to_owned()));
    set_member(&mut members, "unit".to_owned(), JsonValue::String(unit.to_owned()));
    set_number(&mut members, "operationsPerSample", operations_per_sample as u64);
    set_member(&mut members, "samples".to_owned(), number_values(samples));
    set_number(&mut members, "median", sorted[count / 2]);
    set_number(&mut members, "p95", sorted[p95]);
    set_number(&mut members, "min", sorted[0]);
    set_number(&mut members, "max", sorted[count - 1]);
    if let Some(note) = note {
        set_member(&mut members, "note".to_owned(), JsonValue::String(note.to_owned()));
    }
    let result = JsonValue::Object(members);
    proof {
        lemma_array_view(result);
    }
    Ok(result)
}

/// The first place at or after `at` whose character is white space, or is
/// not; the end when there is none.
pub open spec fn boundary(text: Seq<char>, at: int, space: bool) -> int
    decreases text.len() - at,
{
    if at < 0 || at >= text.len() || is_space(text[at]) == space {
        at
    } else {
        boundary(text, at + 1, space)
    }
}

proof fn boundaries_are_inside(text: Seq<char>, at: int, space: bool)
    requires
        0 <= at <= text.len(),
    ensures
        at <= boundary(text, at, space) <= text.len(),
        boundary(text, at, space) < text.len() ==> is_space(text[boundary(text, at, space)])
            == space,
    decreases text.len() - at,
{
    if at < text.len() && is_space(text[at]) != space {
        boundaries_are_inside(text, at + 1, space);
    }
}

/// The words from `at` on: what stands between white space.
pub open spec fn words_from(text: Seq<char>, at: int) -> Seq<Seq<char>>
    decreases text.len() - at,
{
    let start = boundary(text, at, false);
    let end = boundary(text, start, true);
    if !(0 <= at <= start < end <= text.len()) {
        Seq::empty()
    } else {
        seq![text.subrange(start, end)] + words_from(text, end)
    }
}

fn find_boundary(chars: &Vec<char>, at: usize, space: bool) -> (result: usize)
    requires
        at <= chars@.len(),
    ensures
        result == boundary(chars@, at as int, space),
        at <= result <= chars@.len(),
{
    let mut i: usize = at;
    while i < chars.len() && is_whitespace(chars[i]) != space
        invariant
            at <= i <= chars@.len(),
            boundary(chars@, at as int, space) == boundary(chars@, i as int, space),
        decreases chars@.len() - i,
    {
        i += 1;
    }
    i
}

/// The words of a text.
pub fn words(text: &str) -> (result: Vec<String>)
    ensures
        text_list(result@) == words_from(text@, 0),
{
    let chars = characters(text);
    let mut result: Vec<String> = Vec::new();
    let mut at: usize = 0;
    let ghost whole = words_from(text@, 0);
    assert(text_list(result@) + whole =~= whole);
    while at < chars.len()
        invariant
            at <= chars@.len(),
            chars@ == text@,
            whole == words_from(text@, 0),
            whole == text_list(result@) + words_from(text@, at as int),
        decreases chars@.len() - at,
    {
        let start = find_boundary(&chars, at, false);
        let end = find_boundary(&chars, start, true);
        proof {
            boundaries_are_inside(text@, at as int, false);
            boundaries_are_inside(text@, start as int, true);
        }
        if start == chars.len() {
            assert(words_from(text@, at as int) =~= Seq::empty());
            assert(text_list(result@) =~= whole);
            return result;
        }
        assert(start < end) by {
            if start == end {
                assert(is_space(text@[start as int]));
            }
        }
        let word = text.substring_char(start, end).to_owned();
        let ghost before = text_list(result@);
        result.push(word);
        proof {
            assert(text_list(result@) =~= before.push(word@));
            let rest = words_from(text@, end as int);
            assert(before + (seq![word@] + rest) =~= text_list(result@) + rest);
        }
        at = end;
    }
    assert(words_from(text@, at as int) =~= Seq::empty());
    assert(text_list(result@) =~= whole);
    result
}

/// What follows the label in the first of `lines[from..]` that has it.
pub open spec fn labelled_rest(lines: Seq<Seq<char>>, from: int, label: Seq<char>) -> Option<
    Seq<char>,
>
    decreases lines.len() - from,
{
    if from < 0 || from >= lines.len() {
        None
    } else if starts_with(lines[from], label) {
        Some(lines[from].subrange(label.len() as int, lines[from].len() as int))
    } else {
        labelled_rest(lines, from + 1, label)
    }
}

/// The words that say why a text is no number.
pub open spec fn fault_text(fault: NumberFault) -> Seq<char> {
    match fault {
        NumberFault::Empty => "cannot parse integer from empty string"@,
        NumberFault::InvalidDigit => "invalid digit found in string"@,
        NumberFault::TooLarge => "number too large to fit in target type"@,
    }
}

/// The proportional set size that a memory summary gives, in KiB.
pub open spec fn pss_of(source: Seq<char>) -> Result<u64, Seq<char>> {
    match labelled_rest(pieces(source, '\n'), 0, "Pss:"@) {
        None => Err("/proc/self/smaps_rollup has no Pss field"@),
        Some(rest) => {
            let fields = words_from(rest, 0);
            if fields.len() == 0 {
                Err("/proc/self/smaps_rollup Pss field has no value"@)
            } else {
                match number_of(fields[0]) {
                    Err(fault) => Err(
                        "invalid /proc/self/smaps_rollup Pss value: "@ + fault_text(fault),
                    ),
                    Ok(kib) => if fields.len() == 2 && fields[1] == "kB"@ {
                        Ok(kib)
                    } else {
                        Err("invalid /proc/self/smaps_rollup Pss unit"@)
                    },
                }
            }
        },
    }
}

/// Reads the proportional set size out of a memory summary.
pub fn pss_kib(source: &str) -> (result: Result<u64, String>)
    ensures
        (match result {
            Ok(kib) => Ok::<u64, Seq<char>>(kib),
            Err(message) => Err::<u64, Seq<char>>(message@),
        }) == pss_of(source@),
{
    let lines = split(source, '\n');
    let ghost model = text_list(lines@);
    let mut i: usize = 0;
    while i < lines.len()
        invariant
            i <= lines@.len(),
            model == text_list(lines@),
            model == pieces(source@, '\n'),
            labelled_rest(model, 0, "Pss:"@) == labelled_rest(model, i as int, "Pss:"@),
        decreases lines@.len() - i,
    {
        let line = lines[i].as_str();
        assert(model[i as int] == line@);
        if has_prefix(line, "Pss:") {
            let length = line.unicode_len();
            let label = "Pss:".unicode_len();
            let fields = words(line.substring_char(label, length));
            let ghost texts = text_list(fields@);
            if fields.len() == 0 {
                return Err("/proc/self/smaps_rollup Pss field has no value".to_owned());
            }
            assert(texts[0] == fields@[0]@);
            let kib = match parse_number(fields[0].as_str()) {
                Ok(kib) => kib,
                Err(fault) => {
                    let text = match fault {
                        NumberFault::Empty => "cannot parse integer from empty string",
                        NumberFault::InvalidDigit => "invalid digit found in string",
                        NumberFault::TooLarge => "number too large to fit in target type",
                    };
                    return Err(join2("invalid /proc/self/smaps_rollup Pss value: ", text));
                },
            };
            if fields.len() == 2 {
                assert(texts[1] == fields@[1]@);
                if same_text(fields[1].as_str(), "kB") {
                    return Ok(kib);
                }
            }
            return Err("invalid /proc/self/smaps_rollup Pss unit".to_owned());
        }
        i += 1;
    }
    Err("/proc/self/smaps_rollup has no Pss field".to_owned())
}

/// The workload as a document shows it.
pub open spec fn workload_json(workload: PairedWorkload) -> Json {
    let none = Seq::<(Seq<char>, Json)>::empty();
    let schema = with_member(none, "schema"@, Json::String(PAIRED_WORKLOAD_SCHEMA@));
    let scopes = with_member(schema, "scopes"@, number_json(workload.scopes as nat));
    let lookups = with_member(
        scopes,
        "serviceLookups"@,
        number_json(workload.service_lookups as nat),
    );
    let emits = with_member(lookups, "eventEmits"@, number_json(workload.event_emits as nat));
    let entries = with_member(
        emits,
        "loaderEntries"@,
        number_json(workload.loader_entries as nat),
    );
    Json::Object(
        with_member(entries, "rootChildren"@, number_json(workload.root_children as nat)),
    )
}

/// The workload as a document shows it.
pub fn paired_workload_json(workload: PairedWorkload) -> (result: JsonValue)
    ensures
        result@ == workload_json(workload),
{
    let mut members: Vec<Member> = Vec::new();
    assert(json_members(members@) =~= Seq::empty());
    set_member(
        &mut members,
        "schema".to_owned(),
        JsonValue::String(PAIRED_WORKLOAD_SCHEMA.to_owned()),
    );
    set_number(&mut members, "scopes", workload.scopes as u64);
    set_number(&mut members, "serviceLookups", workload.service_lookups as u64);
    set_number(&mut members, "eventEmits", workload.event_emits as u64);
    set_number(&mut members, "loaderEntries", workload.loader_entries as u64);
    set_number(&mut members, "rootChildren", workload.root_children as u64);
    let result = JsonValue::Object(members);
    proof {
        lemma_array_view(result);
    }
    result
}

/// How many of `scopes[from..]` are not disposed.
pub open spec fn still_open(records: Seq<RecordModel>, scopes: Seq<Scope>, from: int) -> nat
    decreases scopes.len() - from,
{
    if from < 0 || from >= scopes.len() {
        0
    } else {
        still_open(records, scopes, from + 1) + if records[scopes[from].index as int].state
            != FiberState::Disposed {
            1nat
        } else {
            0nat
        }
    }
}

/// Counts the scopes that are not disposed.
pub fn count_open(tree: &ScopeTree, scopes: &Vec<Scope>) -> (result: usize)
    requires
        forall|i: int| 0 <= i < scopes@.len() ==> (#[trigger] scopes@[i]).in_tree(tree@),
    ensures
        result == still_open(tree@, scopes@, 0),
{
    let mut count: usize = 0;
    let mut i: usize = scopes.len();
    while i > 0
        invariant
            i <= scopes@.len(),
            count <= scopes@.len() - i,
            scopes@.len() <= usize::MAX,
            forall|k: int| 0 <= k < scopes@.len() ==> (#[trigger] scopes@[k]).in_tree(tree@),
            count == still_open(tree@, scopes@, i as int),
        decreases i,
    {
        i -= 1;
        let scope = scopes[i];
        if scope.state(tree) != FiberState::Disposed {
            count += 1;
        }
    }
    count
}

}
