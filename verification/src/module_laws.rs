//! What the bytes of a module stand for.

use vstd::prelude::*;

use crate::json::{lookup, set_member_is_readable, set_member_keeps_other_keys, with_member};
use crate::module::{
    export_at, exports_at, functions_at, import_at, imports_at, module_header, module_of, name_at,
    number_at, place_value, section_at, sections_at, signatures_from, type_at, types_at,
    ModuleModel, SignatureModel,
};

verus! {

/// The number that digits of base 128 stand for, lowest first; the high bit of
/// a byte is no part of its digit.
pub open spec fn worth(digits: Seq<u8>) -> int
    decreases digits.len(),
{
    if digits.len() == 0 {
        0
    } else {
        digits[0] as int % 128 + 128 * worth(digits.drop_first())
    }
}

/// The bytes from one place to another are one number: only the last has its
/// high bit clear, and what they stand for fits 32 bits in five digits.
pub open spec fn is_number(bytes: Seq<u8>, at: int, next: int) -> bool {
    &&& at < next <= at + 5
    &&& bytes[next - 1] < 128
    &&& forall|i: int| at <= i < next - 1 ==> #[trigger] bytes[i] >= 128
    &&& worth(bytes.subrange(at, next)) < 0x1_0000_0000
}

proof fn worth_of_first(bytes: Seq<u8>, at: int, next: int)
    requires
        0 <= at < next <= bytes.len(),
    ensures
        worth(bytes.subrange(at, next)) == bytes[at] as int % 128 + 128 * worth(
            bytes.subrange(at + 1, next),
        ),
        worth(bytes.subrange(at + 1, next)) >= 0,
    decreases next - at,
{
    assert(bytes.subrange(at, next).drop_first() =~= bytes.subrange(at + 1, next));
    if at + 1 < next {
        worth_of_first(bytes, at + 1, next);
    } else {
        assert(bytes.subrange(at + 1, next).len() == 0);
    }
}

/// What the digits from `index` on may still be worth.
spec fn room(index: int) -> int {
    if index <= 0 {
        0x1_0000_0000
    } else if index == 1 {
        0x200_0000
    } else if index == 2 {
        0x4_0000
    } else if index == 3 {
        0x800
    } else {
        16
    }
}

proof fn digits_read(bytes: Seq<u8>, at: int, end: int, index: int, next: int)
    requires
        0 <= at,
        end <= bytes.len(),
        0 <= index < 5,
    ensures
        number_at(bytes, at, end, index) matches Ok((value, stop)) ==> {
            &&& at < stop <= end
            &&& stop <= at + 5 - index
            &&& bytes[stop - 1] < 128
            &&& forall|i: int| at <= i < stop - 1 ==> #[trigger] bytes[i] >= 128
            &&& value == place_value(index) * worth(bytes.subrange(at, stop))
            &&& worth(bytes.subrange(at, stop)) < room(index)
        },
        at < next <= end && next <= at + 5 - index && bytes[next - 1] < 128 && (forall|i: int|
            at <= i < next - 1 ==> #[trigger] bytes[i] >= 128) && worth(bytes.subrange(at, next))
            < room(index) ==> (number_at(bytes, at, end, index) matches Ok((_, stop)) && stop
            == next),
    decreases 5 - index,
{
    if at < end {
        let digit = bytes[at] as int % 128;
        worth_of_first(bytes, at, at + 1);
        assert(bytes.subrange(at + 1, at + 1).len() == 0);
        assert(worth(bytes.subrange(at, at + 1)) == digit);
        let place = place_value(index);
        assert(digit * place == place * digit) by (nonlinear_arith);
        if bytes[at] < 128 {
            if at < next <= end && next <= at + 5 - index && (forall|i: int|
                at <= i < next - 1 ==> #[trigger] bytes[i] >= 128) {
                assert(next == at + 1) by {
                    if next > at + 1 {
                        assert(bytes[at] >= 128);
                    }
                }
            }
        } else {
            if index < 4 {
                digits_read(bytes, at + 1, end, index + 1, next);
                match number_at(bytes, at + 1, end, index + 1) {
                    Ok((rest, stop)) => {
                        worth_of_first(bytes, at, stop);
                        let tail = worth(bytes.subrange(at + 1, stop));
                        assert(place_value(index + 1) == 128 * place);
                        assert(digit * place + (128 * place) * tail == place * (digit + 128 * tail))
                            by (nonlinear_arith);
                        assert forall|i: int| at <= i < stop - 1 implies #[trigger] bytes[i]
                            >= 128 by {}
                    },
                    Err(_) => {},
                }
            }
            if at < next <= end && next <= at + 5 - index && bytes[next - 1] < 128 {
                worth_of_first(bytes, at, next);
                assert(next > at + 1);
                if index == 4 {
                    assert(false);
                }
            }
        }
    }
}

/// Numbers are read as what their digits stand for: reading gives a value and
/// the place behind it exactly if the bytes up to there, and not beyond the
/// end, are one number, and that number is the value.
pub proof fn numbers_are_what_their_digits_stand_for(
    bytes: Seq<u8>,
    at: int,
    end: int,
    value: int,
    next: int,
)
    requires
        0 <= at,
        end <= bytes.len(),
    ensures
        number_at(bytes, at, end, 0) == Ok::<(int, int), Seq<char>>((value, next)) <==> next <= end
            && is_number(bytes, at, next) && value == worth(bytes.subrange(at, next)),
{
    digits_read(bytes, at, end, 0, next);
    match number_at(bytes, at, end, 0) {
        Ok((found, stop)) => {
            assert(place_value(0) * worth(bytes.subrange(at, stop)) == worth(
                bytes.subrange(at, stop),
            )) by (nonlinear_arith)
                requires
                    place_value(0) == 1,
            ;
        },
        Err(_) => {},
    }
}

/// A run of bytes is read whole, and only if it ends in time; a name is a
/// number of bytes and then those, which are its UTF-8.
pub proof fn names_are_counted_texts(
    bytes: Seq<u8>,
    at: int,
    end: int,
    length: int,
    start: int,
    value: Seq<char>,
    next: int,
)
    requires
        0 <= at,
        end <= bytes.len(),
        start <= end,
        is_number(bytes, at, start),
        length == worth(bytes.subrange(at, start)),
    ensures
        name_at(bytes, at, end) == Ok::<(Seq<char>, int), Seq<char>>((value, next)) <==> next
            == start + length && next <= end && vstd::utf8::valid_utf8(
            bytes.subrange(start, next),
        ) && value == vstd::utf8::decode_utf8(bytes.subrange(start, next)),
{
    numbers_are_what_their_digits_stand_for(bytes, at, end, length, start);
}

/// A function type is its mark, then the counted kinds of its parameters, then
/// those of its results.
pub proof fn types_are_counted_kinds(
    bytes: Seq<u8>,
    at: int,
    end: int,
    first: int,
    second: int,
)
    requires
        0 <= at < end <= bytes.len(),
        bytes[at] == 0x60,
        is_number(bytes, at + 1, first),
        first + worth(bytes.subrange(at + 1, first)) < second <= end,
        is_number(bytes, first + worth(bytes.subrange(at + 1, first)), second),
        first <= end,
        worth(bytes.subrange(at + 1, first)) >= 0,
    ensures
        ({
            let parameters = worth(bytes.subrange(at + 1, first));
            let results = worth(bytes.subrange(first + parameters, second));
            if second + results <= end {
                type_at(bytes, at, end) == Ok::<(SignatureModel, int), Seq<char>>(
                    (
                        SignatureModel {
                            parameters: bytes.subrange(first, first + parameters),
                            results: bytes.subrange(second, second + results),
                        },
                        second + results,
                    ),
                )
            } else {
                type_at(bytes, at, end) is Err
            }
        }),
{
    let parameters = worth(bytes.subrange(at + 1, first));
    let results = worth(bytes.subrange(first + parameters, second));
    numbers_are_what_their_digits_stand_for(bytes, at + 1, end, parameters, first);
    numbers_are_what_their_digits_stand_for(bytes, first + parameters, end, results, second);
}

/// Nothing but the mark of a function type starts a type, and nothing but that
/// of a function is imported.
pub proof fn other_marks_are_refused(bytes: Seq<u8>, at: int, end: int)
    ensures
        type_at(bytes, at, end) is Ok ==> at < end && bytes[at] == 0x60,
        import_at(bytes, at, end) is Ok ==> exists|mark: int| mark < end && #[trigger] bytes[mark]
            == 0,
{
}

/// Types stand one behind the other; they are added to those known, in order.
pub proof fn types_are_added_in_order(
    bytes: Seq<u8>,
    at: int,
    end: int,
    count: int,
    known: Seq<SignatureModel>,
) -> (places: Seq<int>)
    requires
        0 <= count,
    ensures
        types_at(bytes, at, end, count, known) matches Ok((all, next)) ==> {
            &&& all.len() == known.len() + count
            &&& known =~= all.subrange(0, known.len() as int)
            &&& places.len() == count + 1
            &&& places[0] == at
            &&& places[count] == next
            &&& forall|i: int|
                0 <= i < count ==> type_at(bytes, #[trigger] places[i], end) == Ok::<
                    (SignatureModel, int),
                    Seq<char>,
                >((all[known.len() + i], places[i + 1]))
        },
    decreases count,
{
    if count == 0 {
        seq![at]
    } else {
        match type_at(bytes, at, end) {
            Ok((signature, next)) => {
                let rest = types_are_added_in_order(
                    bytes,
                    next,
                    end,
                    count - 1,
                    known.push(signature),
                );
                let places = seq![at] + rest;
                match types_at(bytes, at, end, count, known) {
                    Ok((all, stop)) => {
                        assert(known.push(signature)[known.len() as int] == all.subrange(
                            0,
                            (known.len() + 1) as int,
                        )[known.len() as int]);
                        assert forall|i: int| 0 <= i < known.len() implies known[i] == all[i] by {
                            assert(known.push(signature)[i] == all.subrange(
                                0,
                                (known.len() + 1) as int,
                            )[i]);
                        }
                        assert forall|i: int| 0 <= i < count implies type_at(
                            bytes,
                            #[trigger] places[i],
                            end,
                        ) == Ok::<(SignatureModel, int), Seq<char>>(
                            (all[known.len() + i], places[i + 1]),
                        ) by {
                            if i > 0 {
                                assert(places[i] == rest[i - 1]);
                                assert(places[i + 1] == rest[i]);
                            } else {
                                assert(places[1] == rest[0]);
                            }
                        }
                    },
                    Err(_) => {},
                }
                places
            },
            Err(_) => Seq::empty(),
        }
    }
}

/// Imported functions stand one behind the other; their types are added to the
/// functions known, in order.
pub proof fn imports_are_added_in_order(
    bytes: Seq<u8>,
    at: int,
    end: int,
    count: int,
    known: Seq<int>,
) -> (places: Seq<int>)
    requires
        0 <= count,
    ensures
        imports_at(bytes, at, end, count, known) matches Ok((all, next)) ==> {
            &&& all.len() == known.len() + count
            &&& known =~= all.subrange(0, known.len() as int)
            &&& places.len() == count + 1
            &&& places[0] == at
            &&& places[count] == next
            &&& forall|i: int|
                0 <= i < count ==> import_at(bytes, #[trigger] places[i], end) == Ok::<
                    (int, int),
                    Seq<char>,
                >((all[known.len() + i], places[i + 1]))
        },
    decreases count,
{
    if count == 0 {
        seq![at]
    } else {
        match import_at(bytes, at, end) {
            Ok((index, next)) => {
                let rest = imports_are_added_in_order(bytes, next, end, count - 1, known.push(index));
                let places = seq![at] + rest;
                match imports_at(bytes, at, end, count, known) {
                    Ok((all, stop)) => {
                        assert(known.push(index)[known.len() as int] == all.subrange(
                            0,
                            (known.len() + 1) as int,
                        )[known.len() as int]);
                        assert forall|i: int| 0 <= i < known.len() implies known[i] == all[i] by {
                            assert(known.push(index)[i] == all.subrange(0, (known.len() + 1) as int)[i]);
                        }
                        assert forall|i: int| 0 <= i < count implies import_at(
                            bytes,
                            #[trigger] places[i],
                            end,
                        ) == Ok::<(int, int), Seq<char>>((all[known.len() + i], places[i + 1])) by {
                            if i > 0 {
                                assert(places[i] == rest[i - 1]);
                                assert(places[i + 1] == rest[i]);
                            } else {
                                assert(places[1] == rest[0]);
                            }
                        }
                    },
                    Err(_) => {},
                }
                places
            },
            Err(_) => Seq::empty(),
        }
    }
}

/// The types of defined functions stand one behind the other; they are added to
/// the functions known, in order.
pub proof fn functions_are_added_in_order(
    bytes: Seq<u8>,
    at: int,
    end: int,
    count: int,
    known: Seq<int>,
) -> (places: Seq<int>)
    requires
        0 <= at,
        end <= bytes.len(),
        0 <= count,
    ensures
        functions_at(bytes, at, end, count, known) matches Ok((all, next)) ==> {
            &&& all.len() == known.len() + count
            &&& known =~= all.subrange(0, known.len() as int)
            &&& places.len() == count + 1
            &&& places[0] == at
            &&& places[count] == next
            &&& forall|i: int|
                0 <= i < count ==> is_number(bytes, #[trigger] places[i], places[i + 1])
                    && all[known.len() + i] == worth(bytes.subrange(places[i], places[i + 1]))
        },
    decreases count,
{
    if count == 0 {
        seq![at]
    } else {
        match number_at(bytes, at, end, 0) {
            Ok((index, next)) => {
                numbers_are_what_their_digits_stand_for(bytes, at, end, index, next);
                let rest = functions_are_added_in_order(
                    bytes,
                    next,
                    end,
                    count - 1,
                    known.push(index),
                );
                let places = seq![at] + rest;
                match functions_at(bytes, at, end, count, known) {
                    Ok((all, stop)) => {
                        assert(known.push(index)[known.len() as int] == all.subrange(
                            0,
                            (known.len() + 1) as int,
                        )[known.len() as int]);
                        assert forall|i: int| 0 <= i < known.len() implies known[i] == all[i] by {
                            assert(known.push(index)[i] == all.subrange(0, (known.len() + 1) as int)[i]);
                        }
                        assert forall|i: int| 0 <= i < count implies is_number(
                            bytes,
                            #[trigger] places[i],
                            places[i + 1],
                        ) && all[known.len() + i] == worth(
                            bytes.subrange(places[i], places[i + 1]),
                        ) by {
                            if i > 0 {
                                assert(places[i] == rest[i - 1]);
                                assert(places[i + 1] == rest[i]);
                            } else {
                                assert(places[1] == rest[0]);
                            }
                        }
                    },
                    Err(_) => {},
                }
                places
            },
            Err(_) => Seq::empty(),
        }
    }
}

/// Exports stand one behind the other. Each function among them is known by its
/// name afterwards, no two have the same name, what was known still is, and
/// nothing else is added.
pub proof fn exported_functions_are_known_by_name(
    bytes: Seq<u8>,
    at: int,
    end: int,
    count: int,
    known: Seq<(Seq<char>, int)>,
) -> (places: Seq<int>)
    requires
        0 <= count,
    ensures
        exports_at(bytes, at, end, count, known) matches Ok((all, next)) ==> {
            &&& places.len() == count + 1
            &&& places[0] == at
            &&& places[count] == next
            &&& forall|i: int|
                0 <= i < count ==> (export_at(bytes, #[trigger] places[i], end) matches Ok(
                    (export, after),
                ) && after == places[i + 1] && (export.kind == 0 ==> lookup(all, export.name)
                    == Some(export.index) && lookup(known, export.name) is None))
            &&& forall|i: int, j: int|
                0 <= i < j < count ==> (export_at(bytes, #[trigger] places[i], end)->Ok_0.0.kind == 0
                    && export_at(bytes, #[trigger] places[j], end)->Ok_0.0.kind == 0 ==> export_at(
                    bytes,
                    places[i],
                    end,
                )->Ok_0.0.name != export_at(bytes, places[j], end)->Ok_0.0.name)
            &&& forall|name: Seq<char>| #[trigger]
                lookup(known, name) is Some ==> lookup(all, name) == lookup(known, name)
            &&& forall|name: Seq<char>| #[trigger]
                lookup(all, name) is Some && lookup(known, name) is None ==> exists|i: int|
                    0 <= i < count && export_at(bytes, #[trigger] places[i], end)->Ok_0.0.kind == 0
                        && export_at(bytes, places[i], end)->Ok_0.0.name == name
        },
    decreases count,
{
    if count == 0 {
        seq![at]
    } else {
        match export_at(bytes, at, end) {
            Ok((export, next)) => {
                let grown = if export.kind == 0 {
                    with_member(known, export.name, export.index)
                } else {
                    known
                };
                let rest = exported_functions_are_known_by_name(bytes, next, end, count - 1, grown);
                let places = seq![at] + rest;
                assert forall|i: int| 0 < i <= count && rest.len() == count implies (
                #[trigger] places[i]) == rest[i - 1] by {}
                match exports_at(bytes, at, end, count, known) {
                    Ok((all, stop)) => {
                        set_member_is_readable(known, export.name, export.index);
                        assert forall|name: Seq<char>| export.kind == 0 && name
                            != export.name implies lookup(grown, name) == #[trigger] lookup(
                            known,
                            name,
                        ) by {
                            set_member_keeps_other_keys(known, export.name, export.index, name);
                        }
                        assert(export.kind == 0 ==> lookup(grown, export.name) == Some(export.index));
                        assert(export.kind == 0 ==> lookup(all, export.name) == Some(export.index));
                        assert(rest[0] == next);
                        assert forall|i: int| 0 <= i < count implies (export_at(
                            bytes,
                            #[trigger] places[i],
                            end,
                        ) matches Ok((other, after)) && after == places[i + 1] && (other.kind == 0
                            ==> lookup(all, other.name) == Some(other.index) && lookup(
                            known,
                            other.name,
                        ) is None)) by {
                            if i > 0 {
                                assert(places[i] == rest[i - 1]);
                                assert(places[i + 1] == rest[i]);
                            } else {
                                assert(places[1] == rest[0]);
                            }
                        }
                        assert forall|i: int, j: int|
                            0 <= i < j < count && export_at(
                                bytes,
                                #[trigger] places[i],
                                end,
                            )->Ok_0.0.kind == 0 && export_at(
                                bytes,
                                #[trigger] places[j],
                                end,
                            )->Ok_0.0.kind == 0 implies export_at(
                            bytes,
                            places[i],
                            end,
                        )->Ok_0.0.name != export_at(bytes, places[j], end)->Ok_0.0.name by {
                            assert(places[j] == rest[j - 1]);
                            if i > 0 {
                                assert(places[i] == rest[i - 1]);
                            }
                        }
                        assert forall|name: Seq<char>| #[trigger]
                            lookup(all, name) is Some && lookup(
                                known,
                                name,
                            ) is None implies exists|i: int|
                            0 <= i < count && export_at(bytes, #[trigger] places[i], end)->Ok_0.0.kind
                                == 0 && export_at(bytes, places[i], end)->Ok_0.0.name == name by {
                            if export.kind == 0 && name == export.name {
                                assert(export_at(bytes, places[0], end)->Ok_0.0.kind == 0);
                            } else {
                                assert(lookup(grown, name) is None);
                                let i = choose|i: int|
                                    0 <= i < count - 1 && export_at(
                                        bytes,
                                        #[trigger] rest[i],
                                        end,
                                    )->Ok_0.0.kind == 0 && export_at(
                                        bytes,
                                        rest[i],
                                        end,
                                    )->Ok_0.0.name == name;
                                assert(places[i + 1] == rest[i]);
                            }
                        }
                    },
                    Err(_) => {},
                }
                places
            },
            Err(_) => Seq::empty(),
        }
    }
}

/// What a section of each kind adds to: types, functions (those imported and
/// those defined alike) or exports, as many as it says it holds; a section of
/// another kind adds nothing and is skipped.
pub proof fn sections_add_to_one_part(
    bytes: Seq<u8>,
    id: u8,
    at: int,
    end: int,
    module: ModuleModel,
    count: int,
    start: int,
)
    requires
        0 <= at,
        start <= end <= bytes.len(),
        is_number(bytes, at, start),
        count == worth(bytes.subrange(at, start)),
    ensures
        ({
            let read = section_at(bytes, id, at, end, module);
            &&& id == 1 ==> match types_at(bytes, start, end, count, module.types) {
                Ok((types, next)) => read == Ok::<(ModuleModel, int), Seq<char>>(
                    (
                        ModuleModel { types, functions: module.functions, exports: module.exports },
                        next,
                    ),
                ),
                Err(message) => read == Err::<(ModuleModel, int), Seq<char>>(message),
            }
            &&& id == 2 ==> match imports_at(bytes, start, end, count, module.functions) {
                Ok((functions, next)) => read == Ok::<(ModuleModel, int), Seq<char>>(
                    (ModuleModel { types: module.types, functions, exports: module.exports }, next),
                ),
                Err(message) => read == Err::<(ModuleModel, int), Seq<char>>(message),
            }
            &&& id == 3 ==> match functions_at(bytes, start, end, count, module.functions) {
                Ok((functions, next)) => read == Ok::<(ModuleModel, int), Seq<char>>(
                    (ModuleModel { types: module.types, functions, exports: module.exports }, next),
                ),
                Err(message) => read == Err::<(ModuleModel, int), Seq<char>>(message),
            }
            &&& id == 7 ==> match exports_at(bytes, start, end, count, module.exports) {
                Ok((exports, next)) => read == Ok::<(ModuleModel, int), Seq<char>>(
                    (ModuleModel { types: module.types, functions: module.functions, exports }, next),
                ),
                Err(message) => read == Err::<(ModuleModel, int), Seq<char>>(message),
            }
            &&& id != 1 && id != 2 && id != 3 && id != 7 ==> read == Ok::<
                (ModuleModel, int),
                Seq<char>,
            >((module, end))
        }),
{
    numbers_are_what_their_digits_stand_for(bytes, at, end, count, start);
}

/// An exported function has the type that its index leads to, by way of the
/// functions; signatures are given exactly if every index leads somewhere.
pub proof fn exports_have_the_type_of_their_function(module: ModuleModel, from: int)
    requires
        0 <= from <= module.exports.len(),
    ensures
        signatures_from(module, from) is Ok <==> forall|i: int|
            from <= i < module.exports.len() ==> 0 <= (#[trigger] module.exports[i]).1
                < module.functions.len() && 0 <= module.functions[module.exports[i].1]
                < module.types.len(),
        signatures_from(module, from) matches Ok(signatures) ==> signatures.len()
            == module.exports.len() - from && forall|i: int|
            0 <= i < signatures.len() ==> (#[trigger] signatures[i]).0 == module.exports[from
                + i].0 && signatures[i].1 == module.types[module.functions[module.exports[from
                + i].1]],
    decreases module.exports.len() - from,
{
    if from < module.exports.len() {
        exports_have_the_type_of_their_function(module, from + 1);
        let (name, index) = module.exports[from];
        match signatures_from(module, from) {
            Ok(signatures) => {
                let rest = signatures_from(module, from + 1)->Ok_0;
                assert forall|i: int| 0 <= i < signatures.len() implies (
                #[trigger] signatures[i]).0 == module.exports[from + i].0 && signatures[i].1
                    == module.types[module.functions[module.exports[from + i].1]] by {
                    if i > 0 {
                        assert(signatures[i] == rest[i - 1]);
                        assert(module.exports[from + 1 + (i - 1)] == module.exports[from + i]);
                    }
                }
            },
            Err(_) => {
                if 0 <= index < module.functions.len() && 0 <= module.functions[index]
                    < module.types.len() {
                    assert(signatures_from(module, from + 1) is Err);
                } else {
                    assert(module.exports[from].1 == index);
                }
            },
        }
    }
}

/// A module starts with the four bytes of its format and the version 1, and
/// nothing else is read as one.
pub proof fn modules_start_with_their_header(bytes: Seq<u8>)
    ensures
        module_of(bytes) is Ok ==> bytes.len() >= 8 && bytes[0] == 0 && bytes[1] == 0x61 && bytes[2]
            == 0x73 && bytes[3] == 0x6d && bytes[4] == 1 && bytes[5] == 0 && bytes[6] == 0
            && bytes[7] == 0,
        bytes == seq![0u8, 0x61u8, 0x73u8, 0x6du8, 1u8, 0u8, 0u8, 0u8] ==> module_of(bytes)
            is Ok,
{
    if module_of(bytes) is Ok {
        let start = bytes.subrange(0, 8);
        assert(start == module_header());
        assert(start[0] == bytes[0] && start[1] == bytes[1] && start[2] == bytes[2] && start[3]
            == bytes[3] && start[4] == bytes[4] && start[5] == bytes[5] && start[6] == bytes[6]
            && start[7] == bytes[7]);
    }
    if bytes == seq![0u8, 0x61u8, 0x73u8, 0x6du8, 1u8, 0u8, 0u8, 0u8] {
        assert(bytes.subrange(0, 8) =~= module_header());
    }
}

/// An import is two names, the mark of a function, and the number of its type.
pub proof fn imports_are_two_names_and_a_type(
    bytes: Seq<u8>,
    at: int,
    end: int,
    second: int,
    mark: int,
    next: int,
)
    requires
        0 <= at,
        0 <= mark < end <= bytes.len(),
        name_at(bytes, at, end) matches Ok((_, stop)) && stop == second,
        name_at(bytes, second, end) matches Ok((_, stop)) && stop == mark,
        next <= end,
        is_number(bytes, mark + 1, next),
    ensures
        bytes[mark] == 0 ==> import_at(bytes, at, end) == Ok::<(int, int), Seq<char>>(
            (worth(bytes.subrange(mark + 1, next)), next),
        ),
        bytes[mark] != 0 ==> import_at(bytes, at, end) is Err,
{
    numbers_are_what_their_digits_stand_for(
        bytes,
        mark + 1,
        end,
        worth(bytes.subrange(mark + 1, next)),
        next,
    );
}

/// An export is its name, the byte of its kind, and its number.
pub proof fn exports_are_a_name_a_kind_and_a_number(
    bytes: Seq<u8>,
    at: int,
    end: int,
    mark: int,
    next: int,
)
    requires
        0 <= at,
        0 <= mark < end <= bytes.len(),
        name_at(bytes, at, end) matches Ok((_, stop)) && stop == mark,
        next <= end,
        is_number(bytes, mark + 1, next),
    ensures
        export_at(bytes, at, end) matches Ok((export, stop)) && stop == next && export.kind
            == bytes[mark] && export.index == worth(bytes.subrange(mark + 1, next)) && export.name
            == name_at(bytes, at, end)->Ok_0.0,
{
    numbers_are_what_their_digits_stand_for(
        bytes,
        mark + 1,
        end,
        worth(bytes.subrange(mark + 1, next)),
        next,
    );
}

/// A section is the byte of its kind, its length, and contents that fill that
/// length exactly; what follows is read with what it added. One that is cut
/// short, or that holds too little or too much, is refused.
pub proof fn sections_fill_their_length(bytes: Seq<u8>, at: int, module: ModuleModel, start: int)
    requires
        0 <= at < bytes.len(),
        start <= bytes.len(),
        is_number(bytes, at + 1, start),
    ensures
        ({
            let end = start + worth(bytes.subrange(at + 1, start));
            if end > bytes.len() {
                sections_at(bytes, at, module) is Err
            } else {
                match section_at(bytes, bytes[at], start, end, module) {
                    Ok((grown, stop)) => if stop == end {
                        sections_at(bytes, at, module) == sections_at(bytes, end, grown)
                    } else {
                        sections_at(bytes, at, module) is Err
                    },
                    Err(message) => sections_at(bytes, at, module) == Err::<
                        ModuleModel,
                        Seq<char>,
                    >(message),
                }
            }
        }),
        sections_at(bytes, bytes.len() as int, module) == Ok::<ModuleModel, Seq<char>>(module),
{
    numbers_are_what_their_digits_stand_for(
        bytes,
        at + 1,
        bytes.len() as int,
        worth(bytes.subrange(at + 1, start)),
        start,
    );
}

/// Types, imports, functions and exports are read one by one: the first must be
/// readable, and the rest is read with it added. Only an exported function is
/// added, and one whose name is known is refused.
pub proof fn lists_are_read_one_by_one(
    bytes: Seq<u8>,
    at: int,
    end: int,
    count: int,
    types: Seq<SignatureModel>,
    functions: Seq<int>,
    exports: Seq<(Seq<char>, int)>,
)
    requires
        count > 0,
    ensures
        match type_at(bytes, at, end) {
            Ok((signature, next)) => types_at(bytes, at, end, count, types) == types_at(
                bytes,
                next,
                end,
                count - 1,
                types.push(signature),
            ),
            Err(_) => types_at(bytes, at, end, count, types) is Err,
        },
        match import_at(bytes, at, end) {
            Ok((index, next)) => imports_at(bytes, at, end, count, functions) == imports_at(
                bytes,
                next,
                end,
                count - 1,
                functions.push(index),
            ),
            Err(_) => imports_at(bytes, at, end, count, functions) is Err,
        },
        match number_at(bytes, at, end, 0) {
            Ok((index, next)) => functions_at(bytes, at, end, count, functions) == functions_at(
                bytes,
                next,
                end,
                count - 1,
                functions.push(index),
            ),
            Err(_) => functions_at(bytes, at, end, count, functions) is Err,
        },
        match export_at(bytes, at, end) {
            Ok((export, next)) => if export.kind != 0 {
                exports_at(bytes, at, end, count, exports) == exports_at(
                    bytes,
                    next,
                    end,
                    count - 1,
                    exports,
                )
            } else if lookup(exports, export.name) is None {
                exports_at(bytes, at, end, count, exports) == exports_at(
                    bytes,
                    next,
                    end,
                    count - 1,
                    with_member(exports, export.name, export.index),
                )
            } else {
                exports_at(bytes, at, end, count, exports) is Err
            },
            Err(_) => exports_at(bytes, at, end, count, exports) is Err,
        },
        types_at(bytes, at, end, 0, types) == Ok::<(Seq<SignatureModel>, int), Seq<char>>(
            (types, at),
        ),
        imports_at(bytes, at, end, 0, functions) == Ok::<(Seq<int>, int), Seq<char>>(
            (functions, at),
        ),
        functions_at(bytes, at, end, 0, functions) == Ok::<(Seq<int>, int), Seq<char>>(
            (functions, at),
        ),
        exports_at(bytes, at, end, 0, exports) == Ok::<(Seq<(Seq<char>, int)>, int), Seq<char>>(
            (exports, at),
        ),
{
}

}
