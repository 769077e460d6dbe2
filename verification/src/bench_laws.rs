//! What the benchmark takes from its arguments and documents, and what its
//! summaries tell of the samples.

use vstd::prelude::*;
use vstd::string::*;

use crate::bench::{
    boundary, count_at, digits_value, labelled_rest, number_json, number_of, p95_place, parsed,
    pss_of, ranked, ranking_sorts, still_open, stray_workload_key, summary_of, throughput,
    value_at, words_from, workload_fault, BenchModel, RequestModel,
};
use crate::json::{
    lookup, property, set_member_is_readable, set_member_keeps_other_keys, with_member, Json,
    Number,
};
use crate::lifecycle::{FiberState, RecordModel, Scope};
use crate::text::{is_space, pieces};
use crate::text_laws::letters_and_digits_are_ascii;

verus! {

/// Only digits of ASCII, and at least one.
pub open spec fn digits_only(text: Seq<char>) -> bool {
    text.len() > 0 && forall|i: int|
        0 <= i < text.len() ==> 0x30 <= (#[trigger] text[i]) as u32 <= 0x39
}

/// The number that digits stand for, highest first.
pub open spec fn stands_for(digits: Seq<char>) -> int
    decreases digits.len(),
{
    if digits.len() == 0 {
        0
    } else {
        stands_for(digits.drop_last()) * 10 + (digits.last() as u32 - 0x30)
    }
}

proof fn worth_by_digits(digits: Seq<char>)
    requires
        forall|i: int| 0 <= i < digits.len() ==> 0x30 <= (#[trigger] digits[i]) as u32 <= 0x39,
    ensures
        digits_value(digits) == stands_for(digits),
    decreases digits.len(),
{
    if digits.len() > 0 {
        assert(0x30 <= digits[digits.len() - 1] as u32 <= 0x39);
        assert forall|i: int| 0 <= i < digits.drop_last().len() implies 0x30 <= (
        #[trigger] digits.drop_last()[i]) as u32 <= 0x39 by {
            assert(digits[i] == digits.drop_last()[i]);
        }
        worth_by_digits(digits.drop_last());
        assert(digits.last() == digits[digits.len() - 1]);
    }
}

/// A text is a number exactly if it is digits, with or without a plus sign, and
/// what they stand for fits 64 bits; that is the number.
pub proof fn numbers_are_digits(text: Seq<char>, value: u64)
    ensures
        number_of(text) == Ok::<u64, crate::bench::NumberFault>(value) <==> exists|digits: Seq<char>|
            (text == digits || text == seq!['+'] + digits) && #[trigger] digits_only(digits)
                && stands_for(digits) == value,
{
    let digits = crate::bench::unsigned_part(text);
    assert('+' as u32 == 0x2b);
    assert forall|i: int| 0 <= i < digits.len() implies (crate::text::is_digit(#[trigger] digits[i])
        <==> 0x30 <= digits[i] as u32 <= 0x39) by {
        letters_and_digits_are_ascii(digits[i]);
    }
    assert(crate::bench::all_digits(digits) <==> digits_only(digits));
    if text.len() > 0 && text[0] == '+' {
        assert(text =~= seq!['+'] + digits);
    }
    if digits_only(digits) {
        worth_by_digits(digits);
    }
    assert forall|other: Seq<char>|
        (text == other || text == seq!['+'] + other) && #[trigger] digits_only(
            other,
        ) implies other == digits by {
        assert(0x30 <= other[0] as u32);
        if text == seq!['+'] + other {
            assert(text[0] == '+');
            assert(digits =~= other);
        }
    }
}

/// A count can be given by any number in its range and by nothing else.
pub proof fn counts_are_numbers_in_range(
    arguments: Seq<Option<Seq<char>>>,
    at: int,
    flag: Seq<char>,
    maximum: usize,
)
    ensures
        match count_at(arguments, at, flag, maximum) {
            Ok(count) => 1 <= count <= maximum && 0 <= at < arguments.len() && (arguments[at]
                matches Some(text) && number_of(text) == Ok::<u64, crate::bench::NumberFault>(
                count as u64,
            )),
            Err(_) => !(0 <= at < arguments.len() && (arguments[at] matches Some(text) && (
            number_of(text) matches Ok(number) && 1 <= number <= maximum))),
        },
{
}

/// Each option takes the argument behind it and sets what it is named after,
/// and nothing else; a later one stands. What takes no value sets itself, help
/// ends the reading, and anything else is refused.
pub proof fn options_set_what_they_name(
    arguments: Seq<Option<Seq<char>>>,
    at: int,
    options: BenchModel,
)
    requires
        0 <= at < arguments.len(),
    ensures
        ({
            let request = parsed(arguments, at, options);
            let given = arguments[at];
            let text = if at + 1 < arguments.len() {
                arguments[at + 1]
            } else {
                None
            };
            &&& given is None ==> request is Err
            &&& given == Some("--samples"@) ==> match count_at(arguments, at + 1, "--samples"@, 100) {
                Ok(count) => request == parsed(
                    arguments,
                    at + 2,
                    BenchModel { samples: count, ..options },
                ),
                Err(_) => request is Err,
            }
            &&& given == Some("--batch"@) ==> match count_at(arguments, at + 1, "--batch"@, 1024) {
                Ok(count) => request == parsed(
                    arguments,
                    at + 2,
                    BenchModel { batch: count, ..options },
                ),
                Err(_) => request is Err,
            }
            &&& given == Some("--wasm"@) ==> if text is Some {
                request == parsed(arguments, at + 2, BenchModel { wasm: text, ..options })
            } else {
                request is Err
            }
            &&& given == Some("--node-host"@) ==> if text is Some {
                request == parsed(arguments, at + 2, BenchModel { node_host: text->0, ..options })
            } else {
                request is Err
            }
            &&& given == Some("--workload"@) ==> if text is Some {
                request == parsed(arguments, at + 2, BenchModel { workload: text, ..options })
            } else {
                request is Err
            }
            &&& given == Some("--paired-only"@) ==> request == parsed(
                arguments,
                at + 1,
                BenchModel { paired_only: true, ..options },
            )
            &&& given == Some("--help"@) || given == Some("-h"@) ==> request == Ok::<
                RequestModel,
                Seq<char>,
            >(RequestModel::Help)
            &&& given != Some("--samples"@) && given != Some("--batch"@) && given != Some("--wasm"@)
                && given != Some("--node-host"@) && given != Some("--workload"@) && given != Some(
                "--paired-only"@,
            ) && given != Some("--help"@) && given != Some("-h"@) ==> request is Err
        }),
{
    reveal_strlit("--samples");
    reveal_strlit("--batch");
    reveal_strlit("--wasm");
    reveal_strlit("--node-host");
    reveal_strlit("--workload");
    reveal_strlit("--paired-only");
    reveal_strlit("--help");
    reveal_strlit("-h");
    assert("--samples"@.len() == 9 && "--batch"@.len() == 7 && "--wasm"@.len() == 6
        && "--node-host"@.len() == 11 && "--workload"@.len() == 10 && "--paired-only"@.len() == 13
        && "--help"@.len() == 6 && "-h"@.len() == 2);
    assert("--wasm"@[2] == 'w' && "--help"@[2] == 'h');
}

/// A run that was asked for is within its bounds: a workload comes with paired
/// runs and only with them, and any other run names its module.
pub proof fn runs_are_within_bounds(
    arguments: Seq<Option<Seq<char>>>,
    at: int,
    options: BenchModel,
)
    requires
        0 <= at,
        1 <= options.samples <= 100,
        1 <= options.batch <= 1024,
    ensures
        parsed(arguments, at, options) matches Ok(RequestModel::Run(run)) ==> 1 <= run.samples
            <= 100 && 1 <= run.batch <= 1024 && (run.workload is Some <==> run.paired_only) && (
        !run.paired_only ==> run.wasm is Some),
        at >= arguments.len() ==> (parsed(arguments, at, options) is Ok <==> (
        options.workload is Some <==> options.paired_only) && (options.paired_only
            || options.wasm is Some)),
        at >= arguments.len() && parsed(arguments, at, options) is Ok ==> parsed(
            arguments,
            at,
            options,
        ) == Ok::<RequestModel, Seq<char>>(RequestModel::Run(options)),
    decreases arguments.len() - at,
{
    if at < arguments.len() && arguments[at] is Some {
        let argument = arguments[at]->0;
        counts_are_numbers_in_range(arguments, at + 1, argument, 100);
        counts_are_numbers_in_range(arguments, at + 1, argument, 1024);
        if argument == "--samples"@ {
            match count_at(arguments, at + 1, argument, 100) {
                Ok(samples) => runs_are_within_bounds(
                    arguments,
                    at + 2,
                    BenchModel { samples, ..options },
                ),
                Err(_) => {},
            }
        } else if argument == "--batch"@ {
            match count_at(arguments, at + 1, argument, 1024) {
                Ok(batch) => runs_are_within_bounds(
                    arguments,
                    at + 2,
                    BenchModel { batch, ..options },
                ),
                Err(_) => {},
            }
        } else if argument == "--wasm"@ {
            match value_at(arguments, at + 1, argument) {
                Ok(path) => runs_are_within_bounds(
                    arguments,
                    at + 2,
                    BenchModel { wasm: Some(path), ..options },
                ),
                Err(_) => {},
            }
        } else if argument == "--node-host"@ {
            match value_at(arguments, at + 1, argument) {
                Ok(path) => runs_are_within_bounds(
                    arguments,
                    at + 2,
                    BenchModel { node_host: path, ..options },
                ),
                Err(_) => {},
            }
        } else if argument == "--paired-only"@ {
            runs_are_within_bounds(arguments, at + 1, BenchModel { paired_only: true, ..options });
        } else if argument == "--workload"@ {
            match value_at(arguments, at + 1, argument) {
                Ok(path) => runs_are_within_bounds(
                    arguments,
                    at + 2,
                    BenchModel { workload: Some(path), ..options },
                ),
                Err(_) => {},
            }
        }
    }
}

proof fn strays_are_found(members: Seq<(Seq<char>, Json)>, from: int)
    requires
        0 <= from,
    ensures
        stray_workload_key(members, from) is None <==> forall|i: int|
            from <= i < members.len() ==> {
                let key = (#[trigger] members[i]).0;
                key == "schema"@ || key == "scopes"@ || key == "serviceLookups"@ || key
                    == "eventEmits"@ || key == "loaderEntries"@ || key == "rootChildren"@
            },
    decreases members.len() - from,
{
    if from < members.len() {
        strays_are_found(members, from + 1);
    }
}

/// A paired workload is accepted exactly if it is an object that gives the
/// schema and the five counts with their frozen values, and nothing else.
pub proof fn workloads_are_accepted_if_frozen(value: Json)
    ensures
        workload_fault(value) is None <==> (value matches Json::Object(members) && {
            &&& lookup(members, "schema"@) == Some(
                Json::String("tessivum.core-benchmark-workload/v1"@),
            )
            &&& lookup(members, "scopes"@) == Some(Json::Number(Number::Unsigned(1000)))
            &&& lookup(members, "serviceLookups"@) == Some(Json::Number(Number::Unsigned(256)))
            &&& lookup(members, "eventEmits"@) == Some(Json::Number(Number::Unsigned(256)))
            &&& lookup(members, "loaderEntries"@) == Some(Json::Number(Number::Unsigned(16)))
            &&& lookup(members, "rootChildren"@) == Some(Json::Number(Number::Unsigned(32)))
            &&& forall|i: int|
                0 <= i < members.len() ==> {
                    let key = (#[trigger] members[i]).0;
                    key == "schema"@ || key == "scopes"@ || key == "serviceLookups"@ || key
                        == "eventEmits"@ || key == "loaderEntries"@ || key == "rootChildren"@
                }
        }),
{
    match value {
        Json::Object(members) => strays_are_found(members, 0),
        _ => {},
    }
}

/// The throughput is how many operations fit a second, rounded down.
pub proof fn throughput_is_per_second(operations: nat, nanos: nat)
    requires
        nanos > 0,
    ensures
        throughput(operations, nanos) * nanos <= operations * 1_000_000_000,
        (throughput(operations, nanos) + 1) * nanos > operations * 1_000_000_000,
{
    let total = (operations * 1_000_000_000) as int;
    let rate = throughput(operations, nanos) as int;
    let n = nanos as int;
    vstd::arithmetic::div_mod::lemma_fundamental_div_mod(total, n);
    vstd::arithmetic::div_mod::lemma_mod_bound(total, n);
    assert(n * rate == rate * n) by (nonlinear_arith);
    assert((rate + 1) * n == rate * n + n) by (nonlinear_arith);
}

/// The place of the 95th percentile is the first with 95 of 100 samples at or
/// before it.
pub proof fn the_high_mark_has_nearly_all_below(count: nat)
    requires
        count > 0,
    ensures
        0 <= p95_place(count) < count,
        (p95_place(count) + 1) * 100 >= count * 95,
        p95_place(count) * 100 < count * 95,
{
}

proof fn members_are_read<V>(members: Seq<(Seq<char>, V)>, key: Seq<char>, value: V)
    ensures
        lookup(with_member(members, key, value), key) == Some(value),
        forall|other: Seq<char>|
            other != key ==> #[trigger] lookup(with_member(members, key, value), other) == lookup(
                members,
                other,
            ),
{
    set_member_is_readable(members, key, value);
    assert forall|other: Seq<char>| other != key implies #[trigger] lookup(
        with_member(members, key, value),
        other,
    ) == lookup(members, other) by {
        set_member_keeps_other_keys(members, key, value, other);
    }
}

/// A summary of samples names what was measured, lists the samples as they
/// came, and gives their middle, their 95th percentile, and the least and the
/// greatest of them. With the samples in increasing order, these stand at their
/// middle, at the percentile's place and at both ends.
pub proof fn summaries_tell_of_the_samples(
    name: Seq<char>,
    unit: Seq<char>,
    operations: nat,
    samples: Seq<u64>,
    note: Option<Seq<char>>,
    sorted: Seq<u64>,
)
    requires
        samples.len() > 0,
        sorted.to_multiset() == samples.to_multiset(),
        forall|i: int, j: int| 0 <= i < j < sorted.len() ==> sorted[i] <= sorted[j],
    ensures
        ({
            let summary = summary_of(name, unit, operations, samples, note);
            let number = |value: u64| Some(Json::Number(Number::Unsigned(value)));
            &&& property(summary, "name"@) == Some(Json::String(name))
            &&& property(summary, "unit"@) == Some(Json::String(unit))
            &&& property(summary, "operationsPerSample"@) == number(operations as u64)
            &&& property(summary, "samples"@) matches Some(Json::Array(listed)) && listed.len()
                == samples.len() && forall|i: int|
                0 <= i < listed.len() ==> #[trigger] listed[i] == Json::Number(
                    Number::Unsigned(samples[i]),
                )
            &&& property(summary, "median"@) == number(sorted[samples.len() as int / 2])
            &&& property(summary, "p95"@) == number(sorted[(samples.len() * 95 + 99) / 100 - 1])
            &&& property(summary, "min"@) == number(sorted[0])
            &&& property(summary, "max"@) == number(sorted[samples.len() - 1])
            &&& property(summary, "note"@) == (match note {
                Some(text) => Some(Json::String(text)),
                None => None,
            })
        }),
{
    ranking_sorts(samples, samples.len() as int);
    let ours = ranked(samples, samples.len() as int);
    assert(samples.subrange(0, samples.len() as int) =~= samples);
    sorted_lists_are_one(ours, sorted);
    reveal_strlit("name");
    reveal_strlit("unit");
    reveal_strlit("operationsPerSample");
    reveal_strlit("samples");
    reveal_strlit("median");
    reveal_strlit("p95");
    reveal_strlit("min");
    reveal_strlit("max");
    reveal_strlit("note");
    assert("name"@.len() == 4 && "unit"@.len() == 4 && "operationsPerSample"@.len() == 19
        && "samples"@.len() == 7 && "median"@.len() == 6 && "p95"@.len() == 3 && "min"@.len() == 3
        && "max"@.len() == 3 && "note"@.len() == 4);
    assert("name"@[1] == 'a' && "unit"@[1] == 'n' && "note"@[1] == 'o');
    assert("p95"@[1] == '9' && "min"@[1] == 'i' && "max"@[1] == 'a');
    let none = Seq::<(Seq<char>, Json)>::empty();
    let named = with_member(none, "name"@, Json::String(name));
    members_are_read(none, "name"@, Json::String(name));
    let measured = with_member(named, "unit"@, Json::String(unit));
    members_are_read(named, "unit"@, Json::String(unit));
    let counted = with_member(measured, "operationsPerSample"@, number_json(operations));
    members_are_read(measured, "operationsPerSample"@, number_json(operations));
    let list = Json::Array(Seq::new(samples.len(), |i: int| number_json(samples[i] as nat)));
    let listed = with_member(counted, "samples"@, list);
    members_are_read(counted, "samples"@, list);
    let middle = number_json(ours[samples.len() as int / 2] as nat);
    let halved = with_member(listed, "median"@, middle);
    members_are_read(listed, "median"@, middle);
    let mark = number_json(ours[p95_place(samples.len())] as nat);
    let high = with_member(halved, "p95"@, mark);
    members_are_read(halved, "p95"@, mark);
    let low = with_member(high, "min"@, number_json(ours[0] as nat));
    members_are_read(high, "min"@, number_json(ours[0] as nat));
    let full = with_member(low, "max"@, number_json(ours.last() as nat));
    members_are_read(low, "max"@, number_json(ours.last() as nat));
    members_are_read(full, "note"@, Json::String(note->0));
}

/// Two lists in increasing order with the same members are one list.
proof fn sorted_lists_are_one(a: Seq<u64>, b: Seq<u64>)
    requires
        a.to_multiset() == b.to_multiset(),
        forall|i: int, j: int| 0 <= i < j < a.len() ==> a[i] <= a[j],
        forall|i: int, j: int| 0 <= i < j < b.len() ==> b[i] <= b[j],
    ensures
        a == b,
{
    vstd::seq_lib::lemma_sorted_unique(a, b, |x: u64, y: u64| x <= y);
}

/// The first boundary of a kind from a place on: nothing before it is of that
/// kind.
proof fn boundaries_are_the_first(text: Seq<char>, at: int, space: bool)
    requires
        0 <= at <= text.len(),
    ensures
        at <= boundary(text, at, space) <= text.len(),
        forall|i: int|
            at <= i < boundary(text, at, space) ==> is_space(#[trigger] text[i]) != space,
        boundary(text, at, space) < text.len() ==> is_space(text[boundary(text, at, space)])
            == space,
    decreases text.len() - at,
{
    if at < text.len() && is_space(text[at]) != space {
        boundaries_are_the_first(text, at + 1, space);
    }
}

/// The words of a text are its runs without white space: between them, before
/// the first and behind the last, there is nothing else.
pub proof fn words_are_parted_by_white_space(text: Seq<char>, at: int) -> (starts: Seq<int>)
    requires
        0 <= at <= text.len(),
    ensures
        ({
            let words = words_from(text, at);
            &&& starts.len() == words.len()
            &&& forall|k: int|
                0 <= k < words.len() ==> at <= #[trigger] starts[k] && starts[k] + words[k].len()
                    <= text.len() && words[k].len() > 0 && words[k] == text.subrange(
                    starts[k],
                    starts[k] + words[k].len(),
                )
            &&& forall|k: int, i: int|
                0 <= k < words.len() && 0 <= i < words[k].len() ==> !is_space(
                    #[trigger] words[k][i],
                )
            &&& forall|k: int|
                0 <= k < words.len() - 1 ==> (#[trigger] starts[k]) + words[k].len() < starts[k + 1]
            &&& forall|i: int|
                at <= i < text.len() && !is_space(#[trigger] text[i]) ==> exists|k: int|
                    0 <= k < words.len() && #[trigger] starts[k] <= i < starts[k] + words[k].len()
        }),
    decreases text.len() - at,
{
    let words = words_from(text, at);
    let start = boundary(text, at, false);
    boundaries_are_the_first(text, at, false);
    let end = boundary(text, start, true);
    boundaries_are_the_first(text, start, true);
    if start < end {
        let rest = words_are_parted_by_white_space(text, end);
        let others = words_from(text, end);
        let starts = seq![start] + rest;
        assert(words == seq![text.subrange(start, end)] + others);
        assert forall|k: int| 0 <= k < words.len() implies at <= #[trigger] starts[k] && starts[k]
            + words[k].len() <= text.len() && words[k].len() > 0 && words[k] == text.subrange(
            starts[k],
            starts[k] + words[k].len(),
        ) by {
            if k > 0 {
                assert(words[k] == others[k - 1] && starts[k] == rest[k - 1]);
            }
        }
        assert forall|k: int, i: int|
            0 <= k < words.len() && 0 <= i < words[k].len() implies !is_space(
            #[trigger] words[k][i],
        ) by {
            if k > 0 {
                assert(words[k] == others[k - 1]);
                assert(!is_space(others[k - 1][i]));
            } else {
                assert(words[0][i] == text[start + i]);
                assert(is_space(text[start + i]) != true);
            }
        }
        assert forall|k: int| 0 <= k < words.len() - 1 implies (#[trigger] starts[k])
            + words[k].len() < starts[k + 1] by {
            assert(words[k + 1] == others[k] && starts[k + 1] == rest[k]);
            if k > 0 {
                assert(words[k] == others[k - 1] && starts[k] == rest[k - 1]);
            } else {
                assert(rest[0] >= end);
                if rest[0] == end {
                    assert(others[0][0] == text[end]);
                    assert(!is_space(others[0][0]));
                }
            }
        }
        assert forall|i: int| at <= i < text.len() && !is_space(#[trigger] text[i]) implies exists|
            k: int,
        | 0 <= k < words.len() && #[trigger] starts[k] <= i < starts[k] + words[k].len() by {
            if i < start {
                assert(is_space(text[i]) != false);
            } else if i < end {
                assert(starts[0] <= i < starts[0] + words[0].len());
            } else {
                let k = choose|k: int|
                    0 <= k < others.len() && #[trigger] rest[k] <= i < rest[k] + others[k].len();
                assert(starts[k + 1] == rest[k] && words[k + 1] == others[k]);
            }
        }
        starts
    } else {
        assert forall|i: int| at <= i < text.len() implies is_space(#[trigger] text[i]) by {
            if i < start {
                assert(is_space(text[i]) != false);
            }
        }
        Seq::empty()
    }
}

/// What follows a label is the rest of the first line that starts with it.
pub proof fn labels_are_found_on_the_first_line(lines: Seq<Seq<char>>, from: int, label: Seq<char>)
    requires
        0 <= from <= lines.len(),
    ensures
        match labelled_rest(lines, from, label) {
            Some(rest) => exists|i: int|
                from <= i < lines.len() && #[trigger] lines[i] == label + rest && forall|j: int|
                    from <= j < i ==> !labelled(#[trigger] lines[j], label),
            None => forall|j: int|
                from <= j < lines.len() ==> !labelled(#[trigger] lines[j], label),
        },
    decreases lines.len() - from,
{
    if from < lines.len() {
        crate::text_laws::parts_are_surrounded(lines[from], label);
        labels_are_found_on_the_first_line(lines, from + 1, label);
        if labelled(lines[from], label) {
            let after = choose|after: Seq<char>| lines[from] == #[trigger] (label + after);
            let rest = lines[from].subrange(label.len() as int, lines[from].len() as int);
            assert(lines[from] =~= label + rest);
        } else {
            match labelled_rest(lines, from + 1, label) {
                Some(rest) => {
                    let i = choose|i: int|
                        from + 1 <= i < lines.len() && #[trigger] lines[i] == label + rest
                            && forall|j: int|
                            from + 1 <= j < i ==> !labelled(#[trigger] lines[j], label);
                    assert(lines[i] == label + rest);
                },
                None => {},
            }
        }
    }
}

/// The line is the label and what follows it.
pub open spec fn labelled(line: Seq<char>, label: Seq<char>) -> bool {
    exists|after: Seq<char>| line == #[trigger] (label + after)
}

/// Memory is told by the first line labelled for it: one number that fits, in
/// kilobytes, and nothing else on the line.
pub proof fn memory_is_one_number_of_kilobytes(source: Seq<char>, kib: u64)
    ensures
        pss_of(source) == Ok::<u64, Seq<char>>(kib) <==> (labelled_rest(
            pieces(source, '\n'),
            0,
            "Pss:"@,
        ) matches Some(rest) && words_from(rest, 0).len() == 2 && words_from(rest, 0)[1] == "kB"@
            && number_of(words_from(rest, 0)[0]) == Ok::<u64, crate::bench::NumberFault>(kib)),
{
}

/// Scopes that are not disposed are counted, each as often as it is listed.
pub proof fn open_scopes_are_counted(records: Seq<RecordModel>, scopes: Seq<Scope>, from: int)
    requires
        0 <= from <= scopes.len(),
    ensures
        still_open(records, scopes, from) == 0 <==> forall|i: int|
            from <= i < scopes.len() ==> records[(#[trigger] scopes[i]).index as int].state
                == FiberState::Disposed,
        still_open(records, scopes, from) == scopes.len() - from <==> forall|i: int|
            from <= i < scopes.len() ==> records[(#[trigger] scopes[i]).index as int].state
                != FiberState::Disposed,
        still_open(records, scopes, from) <= scopes.len() - from,
    decreases scopes.len() - from,
{
    if from < scopes.len() {
        open_scopes_are_counted(records, scopes, from + 1);
    }
}

}
