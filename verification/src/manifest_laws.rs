//! Which manifests and modules are accepted, and what a manifest takes from its
//! document.

use vstd::prelude::*;

use crate::config_laws::has_key;
use crate::decode::texts_from;
use crate::json::{lookup, properties_are_smaller, property, Json};
use crate::manifest::{
    blank_or_repeated, confined, export_fault, manifest_fault, module_fault, properties_fault,
    repeated, required_names_fault, schema_fault, semver_shape, unlisted_export, version_number,
    ABI_VERSION, Capability, GuestExport, ManifestModel,
};
use crate::module::{function_exports, SignatureModel, MAX_WASM_BYTES};
use crate::package::{
    capabilities_from, capability_named, export_named, exports_from, manifest_of, manifest_of_source,
    unknown_manifest_key,
};
use crate::text::{blank, decimal_text, is_digit, pieces, pieces_are_never_empty};
use crate::text_laws::{
    decimal_value, decimals_stand_for_their_number, pieces_rejoin, rejoined, rejoined_pieces_split,
};

verus! {

/// A number of a version is exactly the decimal form of a number.
pub proof fn version_numbers_are_decimals(text: Seq<char>, number: nat)
    ensures
        version_number(decimal_text(number)),
        version_number(text) ==> text == decimal_text(decimal_value(text)),
    decreases text.len(),
{
    decimals_stand_for_their_number(number);
    assert forall|i: int| 0 <= i < decimal_text(number).len() implies is_digit(
        #[trigger] decimal_text(number)[i],
    ) by {}
    if decimal_text(number).len() > 1 && decimal_text(number)[0] == '0' {
        assert(number == 0);
    }
    if version_number(text) {
        let last = text.last();
        assert(is_digit(text[text.len() - 1]));
        assert('0' <= last <= '9');
        let low = (last as nat - '0' as nat) as nat;
        assert(0 <= low < 10) by {
            assert('0' as nat == 48 && '9' as nat == 57);
        }
        assert(crate::text::digit(low) == last) by {
            assert(('0' as nat + low) as char == last);
        }
        let rest = text.drop_last();
        if text.len() == 1 {
            assert(rest =~= Seq::empty());
            assert(decimal_value(rest) == 0);
            assert(text =~= seq![last]);
        } else {
            assert(text[0] != '0');
            assert(version_number(rest)) by {
                assert forall|i: int| 0 <= i < rest.len() implies is_digit(#[trigger] rest[i]) by {
                    assert(rest[i] == text[i]);
                }
                assert(rest[0] == text[0]);
            }
            version_numbers_are_decimals(rest, 0);
            let high = decimal_value(rest);
            assert(high > 0) by {
                if high == 0 {
                    assert(decimal_text(0) =~= seq!['0']) by {
                        assert(crate::text::digit(0) == '0');
                    }
                    assert(rest[0] == '0');
                }
            }
            let value = decimal_value(text);
            assert(value == high * 10 + low);
            assert(value / 10 == high && value % 10 == low) by (nonlinear_arith)
                requires
                    value == high * 10 + low,
                    0 <= low < 10,
            ;
            assert(decimal_text(value) =~= decimal_text(high).push(last));
            assert(text =~= rest.push(last));
        }
    }
}

/// Three numbers with dots between them.
pub open spec fn version_core(major: nat, minor: nat, patch: nat) -> Seq<char> {
    rejoined(seq![decimal_text(major), decimal_text(minor), decimal_text(patch)], '.')
}

/// The version is those three numbers, alone or followed by a dash and the rest.
pub open spec fn is_version(
    version: Seq<char>,
    major: nat,
    minor: nat,
    patch: nat,
    rest: Seq<char>,
) -> bool {
    version == version_core(major, minor, patch) || version == version_core(
        major,
        minor,
        patch,
    ).push('-') + rest
}

/// A version is accepted exactly if it is three numbers with dots between them,
/// alone or followed by a dash and anything.
pub proof fn versions_are_three_numbers(version: Seq<char>)
    ensures
        semver_shape(version) <==> exists|major: nat, minor: nat, patch: nat, rest: Seq<char>|
            #[trigger] is_version(version, major, minor, patch, rest),
{
    let parts = pieces(version, '-');
    pieces_are_never_empty(version, '-');
    pieces_rejoin(version, '-');
    let core = parts[0];
    if semver_shape(version) {
        let numbers = pieces(core, '.');
        pieces_rejoin(core, '.');
        version_numbers_are_decimals(numbers[0], 0);
        version_numbers_are_decimals(numbers[1], 0);
        version_numbers_are_decimals(numbers[2], 0);
        let (a, b, c) = (
            decimal_value(numbers[0]),
            decimal_value(numbers[1]),
            decimal_value(numbers[2]),
        );
        assert(numbers =~= seq![decimal_text(a), decimal_text(b), decimal_text(c)]);
        assert(core == version_core(a, b, c));
        let tail = rejoined(parts.drop_first(), '-');
        assert(is_version(version, a, b, c, tail));
    }
    if exists|major: nat, minor: nat, patch: nat, rest: Seq<char>|
        #[trigger] is_version(version, major, minor, patch, rest) {
        let (a, b, c, rest) = choose|major: nat, minor: nat, patch: nat, rest: Seq<char>|
            #[trigger] is_version(version, major, minor, patch, rest);
        let numbers = seq![decimal_text(a), decimal_text(b), decimal_text(c)];
        version_numbers_are_decimals(Seq::empty(), a);
        version_numbers_are_decimals(Seq::empty(), b);
        version_numbers_are_decimals(Seq::empty(), c);
        assert forall|i: int, j: int|
            0 <= i < numbers.len() && 0 <= j < numbers[i].len() implies #[trigger] numbers[i][j]
            != '.' && numbers[i][j] != '-' by {
            assert(version_number(numbers[i]));
            assert(is_digit(numbers[i][j]));
        }
        rejoined_pieces_split(numbers, '.');
        let whole = version_core(a, b, c);
        assert forall|j: int| 0 <= j < whole.len() implies #[trigger] whole[j] != '-' by {
            core_has_no_dash(numbers, j);
        }
        first_piece(whole, rest, '-');
        assert(pieces(whole, '-')[0] == whole);
        assert(core == whole);
        assert(pieces(core, '.') == numbers);
    }
}

proof fn core_has_no_dash(numbers: Seq<Seq<char>>, j: int)
    requires
        forall|i: int, k: int|
            0 <= i < numbers.len() && 0 <= k < numbers[i].len() ==> #[trigger] numbers[i][k] != '-',
        0 <= j < rejoined(numbers, '.').len(),
    ensures
        rejoined(numbers, '.')[j] != '-',
    decreases numbers.len(),
{
    if numbers.len() > 1 {
        let rest = numbers.drop_first();
        let first = numbers[0].push('.');
        if j < numbers[0].len() {
            assert(numbers[0][j] != '-');
        } else if j >= first.len() {
            assert forall|i: int, k: int|
                0 <= i < rest.len() && 0 <= k < rest[i].len() implies #[trigger] rest[i][k]
                != '-' by {
                assert(rest[i] == numbers[i + 1]);
                assert(numbers[i + 1][k] != '-');
            }
            core_has_no_dash(rest, j - first.len());
        }
    } else if numbers.len() == 1 {
        assert(numbers[0][j] != '-');
    }
}

proof fn first_piece(first: Seq<char>, rest: Seq<char>, separator: char)
    requires
        forall|j: int| 0 <= j < first.len() ==> #[trigger] first[j] != separator,
    ensures
        pieces(first, separator)[0] == first,
        pieces(first.push(separator) + rest, separator)[0] == first,
{
    let one = seq![first];
    assert forall|i: int, j: int| 0 <= i < one.len() && 0 <= j < one[i].len() implies #[trigger] one[i][j]
        != separator by {
        assert(first[j] != separator);
    }
    rejoined_pieces_split(one, separator);
    let others = pieces(rest, separator);
    pieces_rejoin(rest, separator);
    pieces_are_never_empty(rest, separator);
    let all = seq![first] + others;
    assert forall|i: int, j: int| 0 <= i < all.len() && 0 <= j < all[i].len() implies #[trigger] all[i][j]
        != separator by {
        if i == 0 {
            assert(first[j] != separator);
        } else {
            assert(all[i] == others[i - 1]);
            assert(others[i - 1][j] != separator);
        }
    }
    assert(all.drop_first() =~= others);
    assert(rejoined(all, separator) == first.push(separator) + rest);
    rejoined_pieces_split(all, separator);
}

/// An entry of these steps stays in its directory exactly if it does not start
/// at the root, its first step is not the directory itself, and no step goes
/// up.
pub proof fn confined_entries_do_not_leave(steps: Seq<Seq<char>>)
    requires
        steps.len() > 0,
        forall|i: int, j: int|
            0 <= i < steps.len() && 0 <= j < steps[i].len() ==> #[trigger] steps[i][j] != '/',
    ensures
        confined(rejoined(steps, '/')) <==> !(steps.len() > 1 && steps[0].len() == 0) && steps[0]
            != "."@ && !steps.contains(".."@),
{
    let entry = rejoined(steps, '/');
    rejoined_pieces_split(steps, '/');
    if steps.len() > 1 {
        assert(entry == steps[0].push('/') + rejoined(steps.drop_first(), '/'));
        if steps[0].len() == 0 {
            assert(entry[0] == '/');
        } else {
            assert(entry[0] == steps[0][0]);
            assert(steps[0][0] != '/');
        }
    } else if entry.len() > 0 {
        assert(entry[0] == steps[0][0]);
        assert(steps[0][0] != '/');
    }
    if steps.contains(".."@) {
        let i = choose|i: int| 0 <= i < steps.len() && steps[i] == ".."@;
        assert(pieces(entry, '/')[i] == ".."@);
    }
}

/// Lists without blanks and repetitions are exactly those that are accepted.
pub proof fn lists_hold_nothing_twice(texts: Seq<Seq<char>>)
    ensures
        !blank_or_repeated(texts) <==> texts.no_duplicates() && forall|i: int|
            0 <= i < texts.len() ==> !blank(#[trigger] texts[i]),
{
    if !blank_or_repeated(texts) {
        assert forall|i: int, j: int|
            0 <= i < texts.len() && 0 <= j < texts.len() && i != j implies texts[i] != texts[j] by {
            if texts[i] == texts[j] {
                if i < j {
                    assert(0 <= i < j && texts[i] == texts[j]);
                } else {
                    assert(0 <= j < i && texts[j] == texts[i]);
                }
            }
        }
    }
}

/// What is not repeated is free of duplicates.
pub proof fn values_are_given_once<T>(values: Seq<T>)
    ensures
        !repeated(values) <==> values.no_duplicates(),
{
    if !repeated(values) {
        assert forall|i: int, j: int|
            0 <= i < values.len() && 0 <= j < values.len() && i != j implies values[i]
            != values[j] by {
            if values[i] == values[j] {
                if i < j {
                    assert(0 <= i < j < values.len() && values[i] == values[j]);
                } else {
                    assert(0 <= j < i < values.len() && values[j] == values[i]);
                }
            }
        }
    }
}

proof fn all_exports_are_listed(export: GuestExport)
    ensures
        exists|i: int| 0 <= i < 5 && #[trigger] GuestExport::spec_all()[i] == export,
{
    let all = GuestExport::spec_all();
    match export {
        GuestExport::Init => assert(all[0] == export),
        GuestExport::Call => assert(all[1] == export),
        GuestExport::Event => assert(all[2] == export),
        GuestExport::Update => assert(all[3] == export),
        GuestExport::Stop => assert(all[4] == export),
    }
}

/// No export is missing exactly if every one is among those given.
pub proof fn every_export_is_needed(exports: Seq<GuestExport>)
    ensures
        unlisted_export(exports, 0) is None <==> forall|export: GuestExport| #[trigger]
            exports.contains(export),
        unlisted_export(exports, 0) matches Some(export) ==> !exports.contains(export),
{
    reveal_with_fuel(unlisted_export, 6);
    if unlisted_export(exports, 0) is None {
        assert forall|export: GuestExport| #[trigger] exports.contains(export) by {
            all_exports_are_listed(export);
        }
    }
}

/// The names of exports and of their phases go together.
pub proof fn exports_are_named_after_their_phase(export: GuestExport, other: GuestExport)
    ensures
        export.spec_str() == "cordis_"@ + export.spec_phase(),
        export.spec_str() == other.spec_str() <==> export == other,
        export.spec_phase() == other.spec_phase() <==> export == other,
        export_named(export.spec_str()) == Some(export),
{
    reveal_strlit("cordis_");
    reveal_strlit("init");
    reveal_strlit("call");
    reveal_strlit("event");
    reveal_strlit("update");
    reveal_strlit("stop");
    reveal_strlit("cordis_init");
    reveal_strlit("cordis_call");
    reveal_strlit("cordis_event");
    reveal_strlit("cordis_update");
    reveal_strlit("cordis_stop");
    assert(export.spec_str() =~= "cordis_"@ + export.spec_phase());
    assert(other.spec_str() =~= "cordis_"@ + other.spec_phase());
    assert("init"@[0] == 'i' && "call"@[0] == 'c' && "event"@[0] == 'e' && "update"@[0] == 'u'
        && "stop"@[0] == 's');
    assert("cordis_init"@[7] == 'i' && "cordis_call"@[7] == 'c' && "cordis_event"@[7] == 'e'
        && "cordis_update"@[7] == 'u' && "cordis_stop"@[7] == 's');
}

/// A name means the capability that it is the name of, and no other.
pub proof fn capabilities_are_found_by_name(capability: Capability, name: Seq<char>)
    ensures
        capability_named(capability.spec_str()) == Some(capability),
        capability_named(name) == Some(capability) ==> name == capability.spec_str(),
{
    reveal_strlit("cordis.log");
    reveal_strlit("cordis.config.get");
    reveal_strlit("cordis.service.call");
    reveal_strlit("cordis.event.emit");
    reveal_strlit("cordis.event.subscribe");
    reveal_strlit("cordis.registration.dispose");
    reveal_strlit("cordis.kv.get");
    reveal_strlit("cordis.kv.set");
    assert("cordis.log"@[7] == 'l' && "cordis.config.get"@[7] == 'c' && "cordis.service.call"@[7]
        == 's' && "cordis.event.emit"@[7] == 'e' && "cordis.event.subscribe"@[7] == 'e'
        && "cordis.registration.dispose"@[7] == 'r' && "cordis.kv.get"@[7] == 'k'
        && "cordis.kv.set"@[7] == 'k');
    assert("cordis.event.emit"@[13] == 'e' && "cordis.event.subscribe"@[13] == 's');
    assert("cordis.kv.get"@[10] == 'g' && "cordis.kv.set"@[10] == 's');
}

/// A schema is well formed: an object whose type is one of the known names,
/// whose property and item schemas are well formed, whose required names are
/// distinct names of properties, which says by a truth value whether it allows
/// other members, and which lists its values in a list.
pub open spec fn well_formed(schema: Json) -> bool
    decreases schema,
{
    &&& schema is Object
    &&& match property(schema, "type"@) {
        None => true,
        Some(Json::String(kind)) => kind == "null"@ || kind == "boolean"@ || kind == "integer"@
            || kind == "number"@ || kind == "string"@ || kind == "array"@ || kind == "object"@,
        Some(_) => false,
    }
    &&& {
        proof {
            properties_are_smaller(schema, "properties"@);
        }
        match property(schema, "properties"@) {
            None => true,
            Some(Json::Object(properties)) => forall|i: int|
                0 <= i < properties.len() ==> well_formed((#[trigger] properties[i]).1),
            Some(_) => false,
        }
    }
    &&& match property(schema, "required"@) {
        None => true,
        Some(Json::Array(names)) => names.no_duplicates() && forall|i: int|
            0 <= i < names.len() ==> (#[trigger] names[i] matches Json::String(name) && (property(
                schema,
                "properties"@,
            ) matches Some(Json::Object(properties)) && has_key(properties, name))),
        Some(_) => false,
    }
    &&& match property(schema, "additionalProperties"@) {
        None => true,
        Some(value) => value is Bool,
    }
    &&& {
        proof {
            properties_are_smaller(schema, "items"@);
        }
        match property(schema, "items"@) {
            None => true,
            Some(items) => well_formed(items),
        }
    }
    &&& match property(schema, "enum"@) {
        None => true,
        Some(value) => value is Array,
    }
}

proof fn required_names_are_good(
    names: Seq<Json>,
    from: int,
    properties: Option<Json>,
    path: Seq<char>,
)
    requires
        0 <= from <= names.len(),
    ensures
        required_names_fault(names, from, properties, path) is None <==> {
            &&& forall|i: int|
                from <= i < names.len() ==> (#[trigger] names[i] matches Json::String(name) && (
                properties matches Some(Json::Object(members)) && has_key(members, name)))
            &&& forall|i: int, j: int|
                0 <= j < i && from <= i < names.len() ==> #[trigger] names[j] != #[trigger] names[i]
        },
    decreases names.len() - from,
{
    if from < names.len() {
        required_names_are_good(names, from + 1, properties, path);
        if names[from] is String {
            let name = names[from]->String_0;
            match properties {
                Some(Json::Object(members)) => {
                    crate::json_laws::lookups_find_the_first_member(members, name);
                    if has_key(members, name) {
                        let i = choose|i: int|
                            0 <= i < members.len() && (#[trigger] members[i]).0 == name;
                        assert(members[i].0 == name);
                    } else {
                        assert forall|i: int| 0 <= i < members.len() implies (
                        #[trigger] members[i]).0 != name by {}
                    }
                },
                _ => {},
            }
        }
    }
}

proof fn property_schemas_are_good(
    properties: Seq<(Seq<char>, Json)>,
    from: int,
    path: Seq<char>,
)
    requires
        0 <= from,
    ensures
        properties_fault(properties, from, path) is None <==> forall|i: int|
            from <= i < properties.len() ==> well_formed((#[trigger] properties[i]).1),
    decreases properties, properties.len() - from,
{
    if from < properties.len() {
        property_schemas_are_good(properties, from + 1, path);
        assert(decreases_to!(properties => properties[from]));
        assert(decreases_to!(properties[from] => properties[from].1));
        schemas_are_accepted_if_well_formed(
            properties[from].1,
            path + ".properties."@ + properties[from].0,
        );
    }
}

/// A schema is accepted if and only if it is well formed.
pub proof fn schemas_are_accepted_if_well_formed(schema: Json, path: Seq<char>)
    ensures
        schema_fault(schema, path) is None <==> well_formed(schema),
    decreases schema, 0int,
{
    match property(schema, "properties"@) {
        Some(Json::Object(properties)) => {
            properties_are_smaller(schema, "properties"@);
            property_schemas_are_good(properties, 0, path);
        },
        _ => {},
    }
    match property(schema, "items"@) {
        Some(items) => {
            properties_are_smaller(schema, "items"@);
            schemas_are_accepted_if_well_formed(items, path + ".items"@);
        },
        None => {},
    }
    match property(schema, "required"@) {
        Some(Json::Array(names)) => {
            required_names_are_good(names, 0, property(schema, "properties"@), path);
            if names.no_duplicates() {
                assert forall|i: int, j: int| 0 <= j < i && 0 <= i < names.len() implies #[trigger] names[j]
                    != #[trigger] names[i] by {}
            }
            if forall|i: int, j: int|
                0 <= j < i && 0 <= i < names.len() ==> #[trigger] names[j]
                    != #[trigger] names[i] {
                assert forall|i: int, j: int|
                    0 <= i < names.len() && 0 <= j < names.len() && i != j implies names[i]
                    != names[j] by {
                    if i < j {
                        assert(names[i] != names[j]);
                    } else {
                        assert(names[j] != names[i]);
                    }
                }
            }
        },
        _ => {},
    }
}

/// A manifest is accepted exactly if its identifier, version and entry say
/// something, the entry stays in the package, the version is one, the contract
/// is the one that is spoken here, nothing is listed twice, every export is
/// there, and its schema is well formed.
pub proof fn manifests_are_accepted_if_complete(manifest: ManifestModel)
    ensures
        manifest_fault(manifest) is None <==> {
            &&& !blank(manifest.id)
            &&& !blank(manifest.version)
            &&& !blank(manifest.entry)
            &&& confined(manifest.entry)
            &&& semver_shape(manifest.version)
            &&& manifest.abi == ABI_VERSION@
            &&& manifest.inject.no_duplicates()
            &&& forall|i: int| 0 <= i < manifest.inject.len() ==> !blank(#[trigger] manifest.inject[i])
            &&& manifest.permissions.no_duplicates()
            &&& manifest.exports.no_duplicates()
            &&& forall|export: GuestExport| #[trigger] manifest.exports.contains(export)
            &&& well_formed(manifest.config_schema)
        },
        manifest_fault(manifest) matches Some(failure) ==> failure.code == "MANIFEST_INVALID"@
            || failure.code == "ABI_UNSUPPORTED"@,
{
    lists_hold_nothing_twice(manifest.inject);
    values_are_given_once(manifest.permissions);
    values_are_given_once(manifest.exports);
    every_export_is_needed(manifest.exports);
    schemas_are_accepted_if_well_formed(manifest.config_schema, "$schema"@);
}

proof fn exports_fit(exports: Seq<(Seq<char>, SignatureModel)>, from: int)
    requires
        0 <= from <= 5,
    ensures
        export_fault(exports, from) is None <==> forall|i: int|
            from <= i < 5 ==> (lookup(exports, (#[trigger] GuestExport::spec_all()[i]).spec_str())
                matches Some(signature) && signature.parameters.len() == 0 && signature.results
                == seq![0x7fu8]),
    decreases 5 - from,
{
    if from < 5 {
        exports_fit(exports, from + 1);
    }
}

/// A module is accepted exactly if it is not too large, can be read, and has
/// every export as a function without parameters that gives one 32-bit integer.
pub proof fn modules_are_accepted_with_all_exports(wasm: Seq<u8>)
    ensures
        module_fault(wasm) is None <==> wasm.len() <= MAX_WASM_BYTES && (function_exports(wasm)
            matches Ok(exports) && forall|export: GuestExport|
            (lookup(exports, #[trigger] export.spec_str()) matches Some(signature)
                && signature.parameters.len() == 0 && signature.results == seq![0x7fu8])),
{
    match function_exports(wasm) {
        Ok(exports) => {
            exports_fit(exports, 0);
            if export_fault(exports, 0) is None {
                assert forall|export: GuestExport|
                    (lookup(exports, #[trigger] export.spec_str()) matches Some(signature)
                        && signature.parameters.len() == 0 && signature.results == seq![0x7fu8]) by {
                    all_exports_are_listed(export);
                    let i = choose|i: int| 0 <= i < 5 && #[trigger] GuestExport::spec_all()[i]
                        == export;
                    assert(GuestExport::spec_all()[i] == export);
                }
            }
        },
        Err(_) => {},
    }
}

proof fn texts_are_read(values: Seq<Json>, from: int)
    requires
        0 <= from <= values.len(),
    ensures
        texts_from(values, from) matches Some(texts) ==> texts.len() == values.len() - from
            && forall|i: int|
            0 <= i < texts.len() ==> values[from + i] == Json::String(#[trigger] texts[i]),
        (forall|i: int| from <= i < values.len() ==> (#[trigger] values[i]) is String)
            ==> texts_from(values, from) is Some,
    decreases values.len() - from,
{
    if from < values.len() {
        texts_are_read(values, from + 1);
        match texts_from(values, from) {
            Some(texts) => {
                let rest = texts_from(values, from + 1)->0;
                assert forall|i: int| 0 <= i < texts.len() implies values[from + i]
                    == Json::String(#[trigger] texts[i]) by {
                    if i > 0 {
                        assert(texts[i] == rest[i - 1]);
                        assert(values[from + 1 + (i - 1)] == values[from + i]);
                    }
                }
            },
            None => {},
        }
    }
}

/// A list of texts reads as exactly those texts, and a list with anything else
/// in it does not read as one.
pub proof fn lists_read_as_their_texts(values: Seq<Json>)
    ensures
        texts_from(values, 0) is Some <==> forall|i: int|
            0 <= i < values.len() ==> (#[trigger] values[i]) is String,
        texts_from(values, 0) matches Some(texts) ==> texts.len() == values.len() && forall|i: int|
            0 <= i < texts.len() ==> values[i] == Json::String(#[trigger] texts[i]),
{
    texts_are_read(values, 0);
    match texts_from(values, 0) {
        Some(texts) => {
            assert forall|i: int| 0 <= i < values.len() implies (#[trigger] values[i]) is String by {
                assert(values[0 + i] == Json::String(texts[i]));
            }
            assert forall|i: int| 0 <= i < texts.len() implies values[i] == Json::String(
                #[trigger] texts[i],
            ) by {
                assert(values[0 + i] == Json::String(texts[i]));
            }
        },
        None => {},
    }
}

/// Names are read one by one as the capabilities that they are the names of.
pub proof fn capabilities_are_read_by_name(names: Seq<Seq<char>>, from: int)
    requires
        0 <= from <= names.len(),
    ensures
        capabilities_from(names, from) matches Ok(list) ==> list.len() == names.len() - from
            && forall|i: int|
            0 <= i < list.len() ==> (#[trigger] list[i]).spec_str() == names[from + i],
        capabilities_from(names, from) is Err <==> exists|i: int|
            from <= i < names.len() && capability_named(#[trigger] names[i]) is None,
    decreases names.len() - from,
{
    if from < names.len() {
        capabilities_are_read_by_name(names, from + 1);
        match capability_named(names[from]) {
            Some(capability) => {
                capabilities_are_found_by_name(capability, names[from]);
                match capabilities_from(names, from + 1) {
                    Ok(rest) => {
                        let list = seq![capability] + rest;
                        assert forall|i: int| 0 <= i < list.len() implies (
                        #[trigger] list[i]).spec_str() == names[from + i] by {
                            if i > 0 {
                                assert(list[i] == rest[i - 1]);
                                assert(names[from + 1 + (i - 1)] == names[from + i]);
                            }
                        }
                    },
                    Err(_) => {},
                }
            },
            None => {},
        }
    }
}

/// Names are read one by one as the exports that they are the names of.
pub proof fn exports_are_read_by_name(names: Seq<Seq<char>>, from: int)
    requires
        0 <= from <= names.len(),
    ensures
        exports_from(names, from) matches Ok(list) ==> list.len() == names.len() - from && forall|
            i: int,
        |
            0 <= i < list.len() ==> (#[trigger] list[i]).spec_str() == names[from + i],
        exports_from(names, from) is Err <==> exists|i: int|
            from <= i < names.len() && export_named(#[trigger] names[i]) is None,
    decreases names.len() - from,
{
    if from < names.len() {
        exports_are_read_by_name(names, from + 1);
        match export_named(names[from]) {
            Some(export) => {
                assert(export.spec_str() == names[from]);
                match exports_from(names, from + 1) {
                    Ok(rest) => {
                        let list = seq![export] + rest;
                        assert forall|i: int| 0 <= i < list.len() implies (
                        #[trigger] list[i]).spec_str() == names[from + i] by {
                            if i > 0 {
                                assert(list[i] == rest[i - 1]);
                                assert(names[from + 1 + (i - 1)] == names[from + i]);
                            }
                        }
                    },
                    Err(_) => {},
                }
            },
            None => {},
        }
    }
}

/// A manifest says what its document says under the same names: nothing is
/// made up, nothing is left out, and the document has no other member.
pub proof fn manifests_say_what_their_document_says(members: Seq<(Seq<char>, Json)>)
    ensures
        manifest_of(members) matches Ok(manifest) ==> {
            &&& lookup(members, "id"@) == Some(Json::String(manifest.id))
            &&& lookup(members, "version"@) == Some(Json::String(manifest.version))
            &&& lookup(members, "entry"@) == Some(Json::String(manifest.entry))
            &&& lookup(members, "abi"@) == Some(Json::String(manifest.abi))
            &&& lookup(members, "configSchema"@) == Some(manifest.config_schema)
            &&& lookup(members, "inject"@) matches Some(Json::Array(values)) && values.len()
                == manifest.inject.len() && forall|i: int|
                0 <= i < values.len() ==> #[trigger] values[i] == Json::String(manifest.inject[i])
            &&& lookup(members, "permissions"@) matches Some(Json::Array(values)) && values.len()
                == manifest.permissions.len() && forall|i: int|
                0 <= i < values.len() ==> crate::forms::named(#[trigger] values[i])
                    == Json::String(manifest.permissions[i].spec_str())
            &&& lookup(members, "exports"@) matches Some(Json::Array(values)) && values.len()
                == manifest.exports.len() && forall|i: int|
                0 <= i < values.len() ==> crate::forms::named(#[trigger] values[i])
                    == Json::String(manifest.exports[i].spec_str())
            &&& forall|i: int|
                0 <= i < members.len() ==> {
                    let key = (#[trigger] members[i]).0;
                    key == "id"@ || key == "version"@ || key == "entry"@ || key == "abi"@ || key
                        == "inject"@ || key == "permissions"@ || key == "configSchema"@ || key
                        == "exports"@
                }
        },
{
    match manifest_of(members) {
        Ok(manifest) => {
            known_keys_only(members, 0);
            match lookup(members, "inject"@) {
                Some(Json::Array(values)) => {
                    lists_read_as_their_texts(values);
                    let texts = texts_from(values, 0)->0;
                    assert forall|i: int| 0 <= i < values.len() implies #[trigger] values[i]
                        == Json::String(manifest.inject[i]) by {
                        assert(texts[i] == manifest.inject[i]);
                    }
                },
                _ => {},
            }
            match lookup(members, "permissions"@) {
                Some(Json::Array(values)) => {
                    let named = crate::forms::all_named(values);
                    lists_read_as_their_texts(named);
                    let texts = texts_from(named, 0)->0;
                    capabilities_are_read_by_name(texts, 0);
                    assert forall|i: int| 0 <= i < values.len() implies crate::forms::named(
                        #[trigger] values[i],
                    ) == Json::String(manifest.permissions[i].spec_str()) by {
                        assert(named[i] == crate::forms::named(values[i]));
                        assert(texts[0 + i] == manifest.permissions[i].spec_str());
                        assert(named[i] == Json::String(texts[i]));
                    }
                },
                _ => {},
            }
            match lookup(members, "exports"@) {
                Some(Json::Array(values)) => {
                    let named = crate::forms::all_named(values);
                    lists_read_as_their_texts(named);
                    let texts = texts_from(named, 0)->0;
                    exports_are_read_by_name(texts, 0);
                    assert forall|i: int| 0 <= i < values.len() implies crate::forms::named(
                        #[trigger] values[i],
                    ) == Json::String(manifest.exports[i].spec_str()) by {
                        assert(named[i] == crate::forms::named(values[i]));
                        assert(texts[0 + i] == manifest.exports[i].spec_str());
                        assert(named[i] == Json::String(texts[i]));
                    }
                },
                _ => {},
            }
        },
        Err(_) => {},
    }
}

proof fn known_keys_only(members: Seq<(Seq<char>, Json)>, from: int)
    requires
        0 <= from,
        unknown_manifest_key(members, from) is None,
    ensures
        forall|i: int|
            from <= i < members.len() ==> {
                let key = (#[trigger] members[i]).0;
                key == "id"@ || key == "version"@ || key == "entry"@ || key == "abi"@ || key
                    == "inject"@ || key == "permissions"@ || key == "configSchema"@ || key
                    == "exports"@
            },
    decreases members.len() - from,
{
    if from < members.len() {
        known_keys_only(members, from + 1);
    }
}

/// Whatever is read from a source passes every rule on manifests, and a source
/// that gives a field twice is refused.
pub proof fn read_manifests_are_valid(
    document: Result<Json, Seq<char>>,
    written: nat,
    source: Seq<char>,
)
    ensures
        manifest_of_source(document, written, source) matches Ok(manifest) ==> manifest_fault(
            manifest,
        ) is None,
        document matches Ok(Json::Object(members)) ==> (members.len() != written
            ==> manifest_of_source(document, written, source) is Err),
        document is Err ==> manifest_of_source(document, written, source) is Err,
{
}

proof fn strays_are_found(members: Seq<(Seq<char>, Json)>, from: int)
    requires
        0 <= from,
    ensures
        crate::package::unknown_manifest_key(members, from) is None <==> forall|i: int|
            from <= i < members.len() ==> {
                let key = (#[trigger] members[i]).0;
                key == "id"@ || key == "version"@ || key == "entry"@ || key == "abi"@ || key
                    == "inject"@ || key == "permissions"@ || key == "configSchema"@ || key
                    == "exports"@
            },
    decreases members.len() - from,
{
    if from < members.len() {
        strays_are_found(members, from + 1);
    }
}

/// A manifest has the keys of a manifest and no other.
pub proof fn manifests_have_no_other_keys(members: Seq<(Seq<char>, Json)>)
    ensures
        crate::package::manifest_of(members) is Ok ==> forall|i: int|
            0 <= i < members.len() ==> {
                let key = (#[trigger] members[i]).0;
                key == "id"@ || key == "version"@ || key == "entry"@ || key == "abi"@ || key
                    == "inject"@ || key == "permissions"@ || key == "configSchema"@ || key
                    == "exports"@
            },
{
    strays_are_found(members, 0);
}

}
