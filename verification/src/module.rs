//! The function exports of a WebAssembly module, read from its bytes.

use vstd::prelude::*;
use vstd::slice::*;
use vstd::string::*;
use vstd::utf8::{decode_utf8, valid_utf8};

use crate::error::{plugin_failure, PluginError, PluginFailure};
use crate::json::{lookup, with_member};
use crate::text::{comes_before, join2};

verus! {

/// The largest module that is accepted, in bytes.
pub const MAX_WASM_BYTES: usize = 8_388_608;

/// The failure that refuses a module.
pub open spec fn module_failure(message: Seq<char>) -> PluginFailure {
    plugin_failure("MODULE_INVALID"@, message, "manifest"@)
}

/// The error that refuses a module.
pub fn module_error(message: &str) -> (result: PluginError)
    ensures
        result@ == module_failure(message@),
{
    PluginError::new("MODULE_INVALID", message, "manifest")
}

/// The place value of the digit at `index` of a base-128 number.
pub open spec fn place_value(index: int) -> int {
    if index <= 0 {
        1
    } else if index == 1 {
        128
    } else if index == 2 {
        16_384
    } else if index == 3 {
        2_097_152
    } else {
        268_435_456
    }
}

/// The number whose base-128 digits, lowest first, start at `at`, together
/// with the place after it. Every digit but the last has its high bit set;
/// there are at most five digits, and the number fits 32 bits. Nothing at or
/// after `end` is looked at.
pub open spec fn number_at(bytes: Seq<u8>, at: int, end: int, index: int) -> Result<
    (int, int),
    Seq<char>,
>
    decreases 5 - index,
{
    if index >= 5 {
        Err("invalid WebAssembly integer"@)
    } else if at >= end {
        Err("truncated WebAssembly section"@)
    } else {
        let digit = bytes[at] as int % 128;
        if index == 4 && digit > 15 {
            Err("invalid WebAssembly integer"@)
        } else if bytes[at] < 128 {
            Ok((digit * place_value(index), at + 1))
        } else {
            match number_at(bytes, at + 1, end, index + 1) {
                Err(message) => Err(message),
                Ok((rest, next)) => Ok((digit * place_value(index) + rest, next)),
            }
        }
    }
}

/// A number that was read fits 32 bits, and reading it advances without
/// passing the end.
pub proof fn numbers_fit_and_advance(bytes: Seq<u8>, at: int, end: int, index: int)
    requires
        0 <= index,
        0 <= at <= end,
    ensures
        number_at(bytes, at, end, index) matches Ok((value, next)) ==> at < next <= end && 0 <= value
            && (index == 0 ==> value < 4_294_967_296) && (index == 1 ==> value <= 4_294_967_168)
            && (index == 2 ==> value <= 4_294_950_912) && (index == 3 ==> value <= 4_292_870_144)
            && (index >= 4 ==> value <= 4_026_531_840),
    decreases 5 - index,
{
    if index < 5 && at < end {
        numbers_fit_and_advance(bytes, at + 1, end, index + 1);
        let digit = bytes[at] as int % 128;
        assert(0 <= digit <= 127);
        assert(digit * 268_435_456 <= 127 * 268_435_456);
    }
}

/// A run of bytes of the given length, together with the place after it.
pub open spec fn run_at(bytes: Seq<u8>, at: int, end: int, length: int) -> Result<
    (Seq<u8>, int),
    Seq<char>,
> {
    if at + length <= end {
        Ok((bytes.subrange(at, at + length), at + length))
    } else {
        Err("truncated WebAssembly section"@)
    }
}

/// What `std` says of bytes that are not UTF-8.
pub uninterp spec fn utf8_error_text(bytes: Seq<u8>) -> Seq<char>;

/// Decodes bytes with `std::str::from_utf8`: the text when they are UTF-8, and
/// otherwise the message of the error, which depends on the bytes alone.
#[verifier::external_body]
pub(crate) fn decode(bytes: &[u8]) -> (result: Result<String, String>)
    ensures
        match result {
            Ok(text) => valid_utf8(bytes@) && text@ == decode_utf8(bytes@),
            Err(message) => !valid_utf8(bytes@) && message@ == utf8_error_text(bytes@),
        },
{
    match std::str::from_utf8(bytes) {
        Ok(text) => Ok(text.to_owned()),
        Err(error) => Err(error.to_string()),
    }
}

/// A length-prefixed name, together with the place after it.
pub open spec fn name_at(bytes: Seq<u8>, at: int, end: int) -> Result<
    (Seq<char>, int),
    Seq<char>,
> {
    match number_at(bytes, at, end, 0) {
        Err(message) => Err(message),
        Ok((length, start)) => match run_at(bytes, start, end, length) {
            Err(message) => Err(message),
            Ok((run, next)) => if valid_utf8(run) {
                Ok((decode_utf8(run), next))
            } else {
                Err("invalid WebAssembly name: "@ + utf8_error_text(run))
            },
        },
    }
}

/// The types of a function: its parameters and its results.
#[verifier::ext_equal]
pub struct SignatureModel {
    pub parameters: Seq<u8>,
    pub results: Seq<u8>,
}

/// A function type, together with the place after it.
pub open spec fn type_at(bytes: Seq<u8>, at: int, end: int) -> Result<
    (SignatureModel, int),
    Seq<char>,
> {
    if at >= end {
        Err("truncated WebAssembly section"@)
    } else if bytes[at] != 0x60 {
        Err("unsupported WebAssembly type declaration"@)
    } else {
        match number_at(bytes, at + 1, end, 0) {
            Err(message) => Err(message),
            Ok((parameter_count, first)) => match run_at(bytes, first, end, parameter_count) {
                Err(message) => Err(message),
                Ok((parameters, second)) => match number_at(bytes, second, end, 0) {
                    Err(message) => Err(message),
                    Ok((result_count, third)) => match run_at(bytes, third, end, result_count) {
                        Err(message) => Err(message),
                        Ok((results, next)) => Ok((SignatureModel { parameters, results }, next)),
                    },
                },
            },
        }
    }
}

/// `count` function types after those of `types`.
pub open spec fn types_at(
    bytes: Seq<u8>,
    at: int,
    end: int,
    count: int,
    types: Seq<SignatureModel>,
) -> Result<(Seq<SignatureModel>, int), Seq<char>>
    decreases count,
{
    if count <= 0 {
        Ok((types, at))
    } else {
        match type_at(bytes, at, end) {
            Err(message) => Err(message),
            Ok((signature, next)) => types_at(bytes, next, end, count - 1, types.push(signature)),
        }
    }
}

/// An imported function's type index, together with the place after it.
pub open spec fn import_at(bytes: Seq<u8>, at: int, end: int) -> Result<(int, int), Seq<char>> {
    match name_at(bytes, at, end) {
        Err(message) => Err(message),
        Ok((_, second)) => match name_at(bytes, second, end) {
            Err(message) => Err(message),
            Ok((_, third)) => if third >= end {
                Err("truncated WebAssembly section"@)
            } else if bytes[third] != 0 {
                Err("unsupported non-function WebAssembly import"@)
            } else {
                number_at(bytes, third + 1, end, 0)
            },
        },
    }
}

/// `count` imported functions after those of `functions`.
pub open spec fn imports_at(
    bytes: Seq<u8>,
    at: int,
    end: int,
    count: int,
    functions: Seq<int>,
) -> Result<(Seq<int>, int), Seq<char>>
    decreases count,
{
    if count <= 0 {
        Ok((functions, at))
    } else {
        match import_at(bytes, at, end) {
            Err(message) => Err(message),
            Ok((index, next)) => imports_at(bytes, next, end, count - 1, functions.push(index)),
        }
    }
}

/// `count` defined functions after those of `functions`.
pub open spec fn functions_at(
    bytes: Seq<u8>,
    at: int,
    end: int,
    count: int,
    functions: Seq<int>,
) -> Result<(Seq<int>, int), Seq<char>>
    decreases count,
{
    if count <= 0 {
        Ok((functions, at))
    } else {
        match number_at(bytes, at, end, 0) {
            Err(message) => Err(message),
            Ok((index, next)) => functions_at(bytes, next, end, count - 1, functions.push(index)),
        }
    }
}

/// One export: its name, its kind and its index.
#[verifier::ext_equal]
pub struct ExportModel {
    pub name: Seq<char>,
    pub kind: u8,
    pub index: int,
}

/// An export, together with the place after it.
pub open spec fn export_at(bytes: Seq<u8>, at: int, end: int) -> Result<
    (ExportModel, int),
    Seq<char>,
> {
    match name_at(bytes, at, end) {
        Err(message) => Err(message),
        Ok((name, second)) => if second >= end {
            Err("truncated WebAssembly section"@)
        } else {
            match number_at(bytes, second + 1, end, 0) {
                Err(message) => Err(message),
                Ok((index, next)) => Ok((ExportModel { name, kind: bytes[second], index }, next)),
            }
        },
    }
}

/// `count` exports; the functions among them are kept by name, after those of
/// `exports`.
pub open spec fn exports_at(
    bytes: Seq<u8>,
    at: int,
    end: int,
    count: int,
    exports: Seq<(Seq<char>, int)>,
) -> Result<(Seq<(Seq<char>, int)>, int), Seq<char>>
    decreases count,
{
    if count <= 0 {
        Ok((exports, at))
    } else {
        match export_at(bytes, at, end) {
            Err(message) => Err(message),
            Ok((export, next)) => if export.kind != 0 {
                exports_at(bytes, next, end, count - 1, exports)
            } else if lookup(exports, export.name) is Some {
                Err("duplicate WebAssembly export name"@)
            } else {
                exports_at(
                    bytes,
                    next,
                    end,
                    count - 1,
                    with_member(exports, export.name, export.index),
                )
            },
        }
    }
}

/// What was read of a module so far.
#[verifier::ext_equal]
pub struct ModuleModel {
    pub types: Seq<SignatureModel>,
    pub functions: Seq<int>,
    pub exports: Seq<(Seq<char>, int)>,
}

/// What the contents of one section, from `at` to `end`, add to a module,
/// together with the place where reading stopped.
pub open spec fn section_at(bytes: Seq<u8>, id: u8, at: int, end: int, module: ModuleModel) -> Result<
    (ModuleModel, int),
    Seq<char>,
> {
    if id == 1 || id == 2 || id == 3 || id == 7 {
        match number_at(bytes, at, end, 0) {
            Err(message) => Err(message),
            Ok((count, start)) => if id == 1 {
                match types_at(bytes, start, end, count, module.types) {
                    Err(message) => Err(message),
                    Ok((types, next)) => Ok((ModuleModel { types, ..module }, next)),
                }
            } else if id == 2 {
                match imports_at(bytes, start, end, count, module.functions) {
                    Err(message) => Err(message),
                    Ok((functions, next)) => Ok((ModuleModel { functions, ..module }, next)),
                }
            } else if id == 3 {
                match functions_at(bytes, start, end, count, module.functions) {
                    Err(message) => Err(message),
                    Ok((functions, next)) => Ok((ModuleModel { functions, ..module }, next)),
                }
            } else {
                match exports_at(bytes, start, end, count, module.exports) {
                    Err(message) => Err(message),
                    Ok((exports, next)) => Ok((ModuleModel { exports, ..module }, next)),
                }
            },
        }
    } else {
        Ok((module, end))
    }
}

/// The module after every section from `at` on. Each section fills its
/// declared length exactly.
pub open spec fn sections_at(bytes: Seq<u8>, at: int, module: ModuleModel) -> Result<
    ModuleModel,
    Seq<char>,
>
    decreases bytes.len() - at,
{
    if at < 0 || at >= bytes.len() {
        Ok(module)
    } else {
        match number_at(bytes, at + 1, bytes.len() as int, 0) {
            Err(message) => Err(message),
            Ok((length, start)) => {
                let end = start + length;
                if end > bytes.len() {
                    Err("truncated WebAssembly section"@)
                } else {
                    match section_at(bytes, bytes[at], start, end, module) {
                        Err(message) => Err(message),
                        Ok((grown, stop)) => if stop != end {
                            Err("invalid WebAssembly section"@)
                        } else {
                            proof {
                                numbers_fit_and_advance(bytes, at + 1, bytes.len() as int, 0);
                            }
                            sections_at(bytes, end, grown)
                        },
                    }
                }
            },
        }
    }
}

/// The bytes that every module starts with.
pub open spec fn module_header() -> Seq<u8> {
    seq![0u8, 0x61u8, 0x73u8, 0x6du8, 1u8, 0u8, 0u8, 0u8]
}

/// Everything that is read of a module.
pub open spec fn module_of(bytes: Seq<u8>) -> Result<ModuleModel, Seq<char>> {
    if bytes.len() < 4 || (bytes.subrange(0, 4) == module_header().subrange(0, 4) && bytes.len()
        < 8) {
        Err("truncated WebAssembly section"@)
    } else if bytes.len() < 8 || bytes.subrange(0, 8) != module_header() {
        Err("module is not a supported WebAssembly binary"@)
    } else {
        sections_at(
            bytes,
            8,
            ModuleModel { types: Seq::empty(), functions: Seq::empty(), exports: Seq::empty() },
        )
    }
}

/// The signatures of `module.exports[from..]`, in name order, or the first bad
/// index.
pub open spec fn signatures_from(module: ModuleModel, from: int) -> Result<
    Seq<(Seq<char>, SignatureModel)>,
    Seq<char>,
>
    decreases module.exports.len() - from,
{
    if from < 0 || from >= module.exports.len() {
        Ok(Seq::empty())
    } else {
        let (name, index) = module.exports[from];
        if index < 0 || index >= module.functions.len() {
            Err("WebAssembly export has an invalid function index"@)
        } else {
            let kind = module.functions[index];
            if kind < 0 || kind >= module.types.len() {
                Err("WebAssembly function has an invalid type index"@)
            } else {
                match signatures_from(module, from + 1) {
                    Err(message) => Err(message),
                    Ok(rest) => Ok(seq![(name, module.types[kind])] + rest),
                }
            }
        }
    }
}

/// The exported functions of a module and their signatures, in name order.
pub open spec fn function_exports(bytes: Seq<u8>) -> Result<
    Seq<(Seq<char>, SignatureModel)>,
    Seq<char>,
> {
    match module_of(bytes) {
        Err(message) => Err(message),
        Ok(module) => signatures_from(module, 0),
    }
}

/// Reads a bounded part of a module from front to back.
pub struct WasmReader<'a> {
    pub bytes: &'a [u8],
    pub offset: usize,
    pub end: usize,
}

impl<'a> WasmReader<'a> {
    /// The part lies inside the bytes, and the place inside the part.
    pub open spec fn wf(&self) -> bool {
        self.offset <= self.end <= self.bytes@.len()
    }

    /// This reader at another place.
    pub open spec fn moved(&self, old_reader: Self, next: int) -> bool {
        &&& self.bytes == old_reader.bytes
        &&& self.end == old_reader.end
        &&& self.offset == next
        &&& self.wf()
    }

    /// Reads one byte.
    pub fn byte(&mut self) -> (result: Result<u8, PluginError>)
        requires
            old(self).wf(),
        ensures
            match result {
                Ok(byte) => old(self).offset < old(self).end && byte
                    == old(self).bytes@[old(self).offset as int] && final(self).moved(
                    *old(self),
                    old(self).offset + 1,
                ),
                Err(error) => old(self).offset == old(self).end && *final(self) == *old(self)
                    && error@ == module_failure("truncated WebAssembly section"@),
            },
    {
        if self.offset == self.end {
            return Err(module_error("truncated WebAssembly section"));
        }
        let byte = self.bytes[self.offset];
        self.offset = self.offset + 1;
        Ok(byte)
    }

    /// Reads a run of bytes.
    pub fn bytes(&mut self, length: usize) -> (result: Result<&'a [u8], PluginError>)
        requires
            old(self).wf(),
        ensures
            match result {
                Ok(run) => run_at(
                    old(self).bytes@,
                    old(self).offset as int,
                    old(self).end as int,
                    length as int,
                ) == Ok::<(Seq<u8>, int), Seq<char>>((run@, final(self).offset as int))
                    && final(self).moved(*old(self), old(self).offset + length),
                Err(error) => run_at(
                    old(self).bytes@,
                    old(self).offset as int,
                    old(self).end as int,
                    length as int,
                ) is Err && error@ == module_failure("truncated WebAssembly section"@),
            },
    {
        if length > self.end - self.offset {
            return Err(module_error("truncated WebAssembly section"));
        }
        let end = self.offset + length;
        let run = slice_subrange(self.bytes, self.offset, end);
        self.offset = end;
        Ok(run)
    }

    /// Reads a number of at most five base-128 digits.
    pub fn u32(&mut self) -> (result: Result<u32, PluginError>)
        requires
            old(self).wf(),
        ensures
            match result {
                Ok(value) => number_at(
                    old(self).bytes@,
                    old(self).offset as int,
                    old(self).end as int,
                    0,
                ) == Ok::<(int, int), Seq<char>>((value as int, final(self).offset as int))
                    && final(self).moved(*old(self), final(self).offset as int)
                    && old(self).offset < final(self).offset,
                Err(error) => number_at(
                    old(self).bytes@,
                    old(self).offset as int,
                    old(self).end as int,
                    0,
                ) matches Err(message) && error@ == module_failure(message),
            },
    {
        let ghost bytes = self.bytes@;
        let ghost start = self.offset as int;
        let ghost end = self.end as int;
        let ghost whole = number_at(bytes, start, end, 0);
        let mut value: u32 = 0;
        let mut index: u32 = 0;
        let mut weight: u32 = 1;
        while index < 5
            invariant
                index <= 5,
                self.wf(),
                self.bytes == old(self).bytes,
                self.end == old(self).end,
                bytes == self.bytes@,
                end == self.end,
                start == old(self).offset,
                start <= self.offset,
                index < 5 ==> weight == place_value(index as int) && value < weight,
                whole == number_at(bytes, start, end, 0),
                whole == (match number_at(bytes, self.offset as int, end, index as int) {
                    Ok((rest, next)) => Ok::<(int, int), Seq<char>>((value + rest, next)),
                    Err(message) => Err::<(int, int), Seq<char>>(message),
                }),
            decreases 5 - index,
        {
            let byte = match self.byte() {
                Ok(byte) => byte,
                Err(error) => return Err(error),
            };
            let digit: u32 = (byte % 128) as u32;
            if index == 4 && digit > 15 {
                return Err(module_error("invalid WebAssembly integer"));
            }
            assert(value + digit * weight < 4_294_967_296 && (weight <= 2_097_152 ==> value + digit
                * weight < weight * 128)) by (nonlinear_arith)
                requires
                    digit <= 127,
                    value < weight,
                    weight == 268_435_456 ==> digit <= 15,
                    weight == 268_435_456 || weight <= 2_097_152,
            ;
            value = value + digit * weight;
            if byte < 128 {
                return Ok(value);
            }
            index = index + 1;
            if index < 5 {
                weight = weight * 128;
            }
        }
        Err(module_error("invalid WebAssembly integer"))
    }

    /// Reads a length-prefixed name.
    pub fn name(&mut self) -> (result: Result<String, PluginError>)
        requires
            old(self).wf(),
        ensures
            match result {
                Ok(name) => name_at(
                    old(self).bytes@,
                    old(self).offset as int,
                    old(self).end as int,
                ) == Ok::<(Seq<char>, int), Seq<char>>((name@, final(self).offset as int))
                    && final(self).moved(*old(self), final(self).offset as int),
                Err(error) => name_at(
                    old(self).bytes@,
                    old(self).offset as int,
                    old(self).end as int,
                ) matches Err(message) && error@ == module_failure(message),
            },
    {
        let length = match self.u32() {
            Ok(length) => length,
            Err(error) => return Err(error),
        };
        let run = match self.bytes(length as usize) {
            Ok(run) => run,
            Err(error) => return Err(error),
        };
        match decode(run) {
            Ok(name) => Ok(name),
            Err(message) => Err(
                module_error(join2("invalid WebAssembly name: ", message.as_str()).as_str()),
            ),
        }
    }
}

/// The types of one function.
#[derive(Clone, Copy, Debug)]
pub struct Signature<'a> {
    pub parameters: &'a [u8],
    pub results: &'a [u8],
}

impl<'a> View for Signature<'a> {
    type V = SignatureModel;

    open spec fn view(&self) -> SignatureModel {
        SignatureModel { parameters: self.parameters@, results: self.results@ }
    }
}

/// The models of a list of signatures.
pub open spec fn signature_list(types: Seq<Signature>) -> Seq<SignatureModel> {
    Seq::new(types.len(), |i: int| types[i]@)
}

/// The models of a list of indices.
pub open spec fn index_list(indices: Seq<u32>) -> Seq<int> {
    Seq::new(indices.len(), |i: int| indices[i] as int)
}

/// An exported function before its index is resolved.
#[derive(Debug)]
pub struct ExportIndex {
    pub name: String,
    pub index: u32,
}

/// The names and indices of a list of exports.
pub open spec fn export_list(exports: Seq<ExportIndex>) -> Seq<(Seq<char>, int)> {
    Seq::new(exports.len(), |i: int| (exports[i].name@, exports[i].index as int))
}

fn holds_export(exports: &Vec<ExportIndex>, name: &String) -> (result: bool)
    ensures
        result == (lookup(export_list(exports@), name@) is Some),
{
    let ghost model = export_list(exports@);
    let mut i: usize = 0;
    assert(model.subrange(0, model.len() as int) =~= model);
    while i < exports.len()
        invariant
            i <= exports@.len(),
            model == export_list(exports@),
            lookup(model, name@) == lookup(model.subrange(i as int, model.len() as int), name@),
        decreases exports@.len() - i,
    {
        let ghost rest = model.subrange(i as int, model.len() as int);
        assert(rest[0] == model[i as int]);
        assert(rest.drop_first() =~= model.subrange(i + 1, model.len() as int));
        if exports[i].name == *name {
            return true;
        }
        i += 1;
    }
    false
}

fn add_export(exports: &mut Vec<ExportIndex>, name: String, index: u32)
    requires
        lookup(export_list(old(exports)@), name@) is None,
    ensures
        export_list(final(exports)@) == with_member(
            export_list(old(exports)@),
            name@,
            index as int,
        ),
{
    let ghost model = export_list(exports@);
    let ghost value = index as int;
    let mut i: usize = 0;
    assert(model.subrange(0, model.len() as int) =~= model);
    assert(model.subrange(0, 0) + with_member(model, name@, value) =~= with_member(
        model,
        name@,
        value,
    ));
    while i < exports.len()
        invariant
            i <= exports@.len(),
            exports@ == old(exports)@,
            model == export_list(old(exports)@),
            value == index,
            lookup(model.subrange(i as int, model.len() as int), name@) is None,
            with_member(model, name@, value) == model.subrange(0, i as int) + with_member(
                model.subrange(i as int, model.len() as int),
                name@,
                value,
            ),
        decreases exports@.len() - i,
    {
        let ghost rest = model.subrange(i as int, model.len() as int);
        assert(rest[0] == model[i as int]);
        assert(rest.drop_first() =~= model.subrange(i + 1, model.len() as int));
        if comes_before(name.as_str(), exports[i].name.as_str()) {
            exports.insert(i, ExportIndex { name, index });
            assert(export_list(exports@) =~= model.subrange(0, i as int) + (seq![(name@, value)]
                + rest));
            return;
        }
        assert(model.subrange(0, i + 1) =~= model.subrange(0, i as int) + seq![rest[0]]);
        assert(with_member(model, name@, value) =~= model.subrange(0, i + 1) + with_member(
            rest.drop_first(),
            name@,
            value,
        ));
        i += 1;
    }
    assert(model.subrange(i as int, model.len() as int) =~= Seq::empty());
    exports.push(ExportIndex { name, index });
    assert(export_list(exports@) =~= model.subrange(0, i as int) + seq![(name@, value)]);
}

fn read_type<'a>(section: &mut WasmReader<'a>) -> (result: Result<Signature<'a>, PluginError>)
    requires
        old(section).wf(),
    ensures
        match result {
            Ok(signature) => type_at(
                old(section).bytes@,
                old(section).offset as int,
                old(section).end as int,
            ) == Ok::<(SignatureModel, int), Seq<char>>(
                (signature@, final(section).offset as int),
            ) && final(section).moved(*old(section), final(section).offset as int),
            Err(error) => type_at(
                old(section).bytes@,
                old(section).offset as int,
                old(section).end as int,
            ) matches Err(message) && error@ == module_failure(message),
        },
{
    let form = match section.byte() {
        Ok(form) => form,
        Err(error) => return Err(error),
    };
    if form != 0x60 {
        return Err(module_error("unsupported WebAssembly type declaration"));
    }
    let parameter_count = match section.u32() {
        Ok(count) => count,
        Err(error) => return Err(error),
    };
    let parameters = match section.bytes(parameter_count as usize) {
        Ok(run) => run,
        Err(error) => return Err(error),
    };
    let result_count = match section.u32() {
        Ok(count) => count,
        Err(error) => return Err(error),
    };
    let results = match section.bytes(result_count as usize) {
        Ok(run) => run,
        Err(error) => return Err(error),
    };
    Ok(Signature { parameters, results })
}

fn read_import(section: &mut WasmReader) -> (result: Result<u32, PluginError>)
    requires
        old(section).wf(),
    ensures
        match result {
            Ok(index) => import_at(
                old(section).bytes@,
                old(section).offset as int,
                old(section).end as int,
            ) == Ok::<(int, int), Seq<char>>((index as int, final(section).offset as int))
                && final(section).moved(*old(section), final(section).offset as int),
            Err(error) => import_at(
                old(section).bytes@,
                old(section).offset as int,
                old(section).end as int,
            ) matches Err(message) && error@ == module_failure(message),
        },
{
    match section.name() {
        Ok(_) => {},
        Err(error) => {
            return Err(error);
        },
    }
    match section.name() {
        Ok(_) => {},
        Err(error) => {
            return Err(error);
        },
    }
    let kind = match section.byte() {
        Ok(kind) => kind,
        Err(error) => return Err(error),
    };
    if kind != 0 {
        return Err(module_error("unsupported non-function WebAssembly import"));
    }
    section.u32()
}

/// The parts of a module that decide its function exports.
pub struct ModuleParts<'a> {
    pub types: Vec<Signature<'a>>,
    pub functions: Vec<u32>,
    pub exports: Vec<ExportIndex>,
}

impl<'a> View for ModuleParts<'a> {
    type V = ModuleModel;

    open spec fn view(&self) -> ModuleModel {
        ModuleModel {
            types: signature_list(self.types@),
            functions: index_list(self.functions@),
            exports: export_list(self.exports@),
        }
    }
}

fn read_section<'a>(id: u8, section: &mut WasmReader<'a>, parts: &mut ModuleParts<'a>) -> (result:
    Result<(), PluginError>)
    requires
        old(section).wf(),
    ensures
        match result {
            Ok(()) => section_at(
                old(section).bytes@,
                id,
                old(section).offset as int,
                old(section).end as int,
                old(parts)@,
            ) == Ok::<(ModuleModel, int), Seq<char>>((final(parts)@, final(section).offset as int))
                && final(section).moved(*old(section), final(section).offset as int),
            Err(error) => section_at(
                old(section).bytes@,
                id,
                old(section).offset as int,
                old(section).end as int,
                old(parts)@,
            ) matches Err(message) && error@ == module_failure(message),
        },
{
    if !(id == 1 || id == 2 || id == 3 || id == 7) {
        section.offset = section.end;
        return Ok(());
    }
    let ghost bytes = section.bytes@;
    let ghost end = section.end as int;
    let ghost whole = section_at(bytes, id, section.offset as int, end, parts@);
    let count = match section.u32() {
        Ok(count) => count,
        Err(error) => return Err(error),
    };
    let ghost start = section.offset as int;
    let ghost module = parts@;
    let mut left: u32 = count;
    if id == 1 {
        while left > 0
            invariant
                section.wf(),
                section.bytes == old(section).bytes,
                section.end == old(section).end,
                bytes == section.bytes@,
                end == section.end,
                parts.functions@ == old(parts).functions@,
                parts.exports@ == old(parts).exports@,
                types_at(bytes, start, end, count as int, module.types) == types_at(
                    bytes,
                    section.offset as int,
                    end,
                    left as int,
                    signature_list(parts.types@),
                ),
                whole == section_at(bytes, id, old(section).offset as int, end, module),
                number_at(bytes, old(section).offset as int, end, 0) == Ok::<
                    (int, int),
                    Seq<char>,
                >((count as int, start)),
                module == old(parts)@,
                id == 1,
            decreases left,
        {
            let ghost before = signature_list(parts.types@);
            let signature = match read_type(section) {
                Ok(signature) => signature,
                Err(error) => return Err(error),
            };
            parts.types.push(signature);
            assert(signature_list(parts.types@) =~= before.push(signature@));
            left = left - 1;
        }
    } else if id == 2 {
        while left > 0
            invariant
                section.wf(),
                section.bytes == old(section).bytes,
                section.end == old(section).end,
                bytes == section.bytes@,
                end == section.end,
                parts.types@ == old(parts).types@,
                parts.exports@ == old(parts).exports@,
                imports_at(bytes, start, end, count as int, module.functions) == imports_at(
                    bytes,
                    section.offset as int,
                    end,
                    left as int,
                    index_list(parts.functions@),
                ),
                whole == section_at(bytes, id, old(section).offset as int, end, module),
                number_at(bytes, old(section).offset as int, end, 0) == Ok::<
                    (int, int),
                    Seq<char>,
                >((count as int, start)),
                module == old(parts)@,
                id == 2,
            decreases left,
        {
            let ghost before = index_list(parts.functions@);
            let index = match read_import(section) {
                Ok(index) => index,
                Err(error) => return Err(error),
            };
            parts.functions.push(index);
            assert(index_list(parts.functions@) =~= before.push(index as int));
            left = left - 1;
        }
    } else if id == 3 {
        while left > 0
            invariant
                section.wf(),
                section.bytes == old(section).bytes,
                section.end == old(section).end,
                bytes == section.bytes@,
                end == section.end,
                parts.types@ == old(parts).types@,
                parts.exports@ == old(parts).exports@,
                functions_at(bytes, start, end, count as int, module.functions) == functions_at(
                    bytes,
                    section.offset as int,
                    end,
                    left as int,
                    index_list(parts.functions@),
                ),
                whole == section_at(bytes, id, old(section).offset as int, end, module),
                number_at(bytes, old(section).offset as int, end, 0) == Ok::<
                    (int, int),
                    Seq<char>,
                >((count as int, start)),
                module == old(parts)@,
                id == 3,
            decreases left,
        {
            let ghost before = index_list(parts.functions@);
            let index = match section.u32() {
                Ok(index) => index,
                Err(error) => return Err(error),
            };
            parts.functions.push(index);
            assert(index_list(parts.functions@) =~= before.push(index as int));
            left = left - 1;
        }
    } else {
        while left > 0
            invariant
                section.wf(),
                section.bytes == old(section).bytes,
                section.end == old(section).end,
                bytes == section.bytes@,
                end == section.end,
                parts.types@ == old(parts).types@,
                parts.functions@ == old(parts).functions@,
                exports_at(bytes, start, end, count as int, module.exports) == exports_at(
                    bytes,
                    section.offset as int,
                    end,
                    left as int,
                    export_list(parts.exports@),
                ),
                whole == section_at(bytes, id, old(section).offset as int, end, module),
                number_at(bytes, old(section).offset as int, end, 0) == Ok::<
                    (int, int),
                    Seq<char>,
                >((count as int, start)),
                module == old(parts)@,
                id == 7,
            decreases left,
        {
            let name = match section.name() {
                Ok(name) => name,
                Err(error) => return Err(error),
            };
            let kind = match section.byte() {
                Ok(kind) => kind,
                Err(error) => return Err(error),
            };
            let index = match section.u32() {
                Ok(index) => index,
                Err(error) => return Err(error),
            };
            if kind == 0 {
                if holds_export(&parts.exports, &name) {
                    return Err(module_error("duplicate WebAssembly export name"));
                }
                add_export(&mut parts.exports, name, index);
            }
            left = left - 1;
        }
    }
    Ok(())
}

/// An exported function and its types.
#[derive(Debug)]
pub struct FunctionExport<'a> {
    pub name: String,
    pub signature: Signature<'a>,
}

/// The names and signatures of a list of exported functions.
pub open spec fn function_list(exports: Seq<FunctionExport>) -> Seq<(Seq<char>, SignatureModel)> {
    Seq::new(exports.len(), |i: int| (exports[i].name@, exports[i].signature@))
}

fn read_module<'a>(wasm: &'a [u8]) -> (result: Result<ModuleParts<'a>, PluginError>)
    ensures
        match result {
            Ok(parts) => module_of(wasm@) == Ok::<ModuleModel, Seq<char>>(parts@),
            Err(error) => module_of(wasm@) matches Err(message) && error@ == module_failure(
                message,
            ),
        },
{
    let ghost bytes = wasm@;
    let mut reader = WasmReader { bytes: wasm, offset: 0, end: wasm.len() };
    let magic = match reader.bytes(4) {
        Ok(run) => run,
        Err(error) => return Err(error),
    };
    assert(magic@ == bytes.subrange(0, 4));
    let matches_magic = magic[0] == 0 && magic[1] == 0x61 && magic[2] == 0x73 && magic[3] == 0x6d;
    proof {
        assert(matches_magic <==> magic@ =~= module_header().subrange(0, 4));
    }
    if !matches_magic {
        proof {
            if bytes.len() >= 8 {
                assert(bytes.subrange(0, 4) =~= bytes.subrange(0, 8).subrange(0, 4));
            }
        }
        return Err(module_error("module is not a supported WebAssembly binary"));
    }
    let version = match reader.bytes(4) {
        Ok(run) => run,
        Err(error) => return Err(error),
    };
    assert(version@ == bytes.subrange(4, 8));
    let matches_version = version[0] == 1 && version[1] == 0 && version[2] == 0 && version[3] == 0;
    proof {
        assert(bytes.subrange(0, 8) =~= bytes.subrange(0, 4) + bytes.subrange(4, 8));
        assert(module_header() =~= module_header().subrange(0, 4) + seq![1u8, 0u8, 0u8, 0u8]);
        if matches_version {
            assert(version@ =~= seq![1u8, 0u8, 0u8, 0u8]);
        } else {
            if bytes.subrange(0, 8) == module_header() {
                assert(version@[0] == module_header()[4]);
                assert(version@[1] == module_header()[5]);
                assert(version@[2] == module_header()[6]);
                assert(version@[3] == module_header()[7]);
            }
        }
    }
    if !matches_version {
        return Err(module_error("module is not a supported WebAssembly binary"));
    }
    let mut parts = ModuleParts {
        types: Vec::new(),
        functions: Vec::new(),
        exports: Vec::new(),
    };
    assert(parts@ =~= (ModuleModel {
        types: Seq::empty(),
        functions: Seq::empty(),
        exports: Seq::empty(),
    }));
    while reader.offset < reader.end
        invariant
            reader.wf(),
            reader.bytes == wasm,
            reader.end == wasm@.len(),
            bytes == wasm@,
            module_of(bytes) == sections_at(bytes, reader.offset as int, parts@),
        decreases reader.end - reader.offset,
    {
        let id = match reader.byte() {
            Ok(id) => id,
            Err(error) => return Err(error),
        };
        let length = match reader.u32() {
            Ok(length) => length,
            Err(error) => return Err(error),
        };
        if length as usize > reader.end - reader.offset {
            return Err(module_error("truncated WebAssembly section"));
        }
        let end = reader.offset + length as usize;
        let mut section = WasmReader { bytes: wasm, offset: reader.offset, end };
        match read_section(id, &mut section, &mut parts) {
            Ok(()) => {},
            Err(error) => {
                return Err(error);
            },
        }
        if section.offset != end {
            return Err(module_error("invalid WebAssembly section"));
        }
        reader.offset = end;
    }
    Ok(parts)
}

/// The exported functions of a module and their types, in name order.
pub fn wasm_function_exports<'a>(wasm: &'a [u8]) -> (result: Result<
    Vec<FunctionExport<'a>>,
    PluginError,
>)
    ensures
        match result {
            Ok(exports) => function_exports(wasm@) == Ok::<
                Seq<(Seq<char>, SignatureModel)>,
                Seq<char>,
            >(function_list(exports@)),
            Err(error) => function_exports(wasm@) matches Err(message) && error@
                == module_failure(message),
        },
{
    let parts = match read_module(wasm) {
        Ok(parts) => parts,
        Err(error) => return Err(error),
    };
    let ghost module = parts@;
    let mut functions: Vec<FunctionExport<'a>> = Vec::new();
    let mut i: usize = 0;
    let ghost whole = signatures_from(module, 0);
    proof {
        assert(function_list(functions@) =~= Seq::empty());
        if whole is Ok {
            assert(Seq::<(Seq<char>, SignatureModel)>::empty() + whole->Ok_0 =~= whole->Ok_0);
        }
    }
    while i < parts.exports.len()
        invariant
            i <= parts.exports@.len(),
            module == parts@,
            whole == signatures_from(module, 0),
            function_exports(wasm@) == whole,
            whole == (match signatures_from(module, i as int) {
                Ok(rest) => Ok::<Seq<(Seq<char>, SignatureModel)>, Seq<char>>(
                    function_list(functions@) + rest,
                ),
                Err(message) => Err::<Seq<(Seq<char>, SignatureModel)>, Seq<char>>(message),
            }),
        decreases parts.exports@.len() - i,
    {
        let index = parts.exports[i].index as usize;
        assert(module.exports[i as int] == (parts.exports@[i as int].name@, index as int));
        if index >= parts.functions.len() {
            return Err(module_error("WebAssembly export has an invalid function index"));
        }
        let kind = parts.functions[index] as usize;
        assert(module.functions[index as int] == kind);
        if kind >= parts.types.len() {
            return Err(module_error("WebAssembly function has an invalid type index"));
        }
        let function = FunctionExport {
            name: parts.exports[i].name.clone(),
            signature: parts.types[kind],
        };
        let ghost before = function_list(functions@);
        functions.push(function);
        proof {
            let pair = (function.name@, function.signature@);
            assert(module.types[kind as int] == function.signature@);
            assert(function_list(functions@) =~= before.push(pair));
            if signatures_from(module, i + 1) is Ok {
                let rest = signatures_from(module, i + 1)->Ok_0;
                assert(before + (seq![pair] + rest) =~= function_list(functions@) + rest);
            }
        }
        i += 1;
    }
    assert(function_list(functions@) + Seq::<(Seq<char>, SignatureModel)>::empty()
        =~= function_list(functions@));
    Ok(functions)
}

}
