//! How references are written, and when a document gives a field twice.

use vstd::prelude::*;
use vstd::string::*;

use crate::config::{parsed_reference, unwrapped, Reference};
use crate::fixture::{fixture_of_document, fixture_of_source};
use crate::engine::received_request;
use crate::json::Json;
use crate::loader::first_doubled;
use crate::package::{manifest_of_document, manifest_of_source};
use crate::text::pieces;
use crate::text_laws::{letters_and_digits_are_ascii, pieces_rejoin, rejoined, rejoined_pieces_split};
use crate::tree::RuntimeKind;

verus! {

/// A name: letters and digits of ASCII, underscores and dashes, and at least
/// one of them.
pub open spec fn is_plain_name(text: Seq<char>) -> bool {
    text.len() > 0 && forall|i: int|
        0 <= i < text.len() ==> 0x30 <= (#[trigger] text[i]) as u32 <= 0x39 || 0x41
            <= text[i] as u32 <= 0x5a || 0x61 <= text[i] as u32 <= 0x7a || text[i] == '_' || text[i]
            == '-'
}

/// How a reference is written: a word by itself, or a word and names behind it,
/// with dots between them.
pub open spec fn written(reference: Reference) -> Seq<char> {
    match reference {
        Reference::Platform => "platform"@,
        Reference::Architecture => "architecture"@,
        Reference::Env(name) => rejoined(seq!["env"@, name], '.'),
        Reference::Profile(name) => rejoined(seq!["profile"@, name], '.'),
        Reference::Service(name, path) => rejoined(seq!["service"@, name] + path, '.'),
    }
}

/// Everything that the reference names is a name.
pub open spec fn names_well(reference: Reference) -> bool {
    match reference {
        Reference::Platform | Reference::Architecture => true,
        Reference::Env(name) => is_plain_name(name),
        Reference::Profile(name) => is_plain_name(name),
        Reference::Service(name, path) => is_plain_name(name) && forall|i: int|
            0 <= i < path.len() ==> is_plain_name(#[trigger] path[i]),
    }
}

proof fn names_are_plain(text: Seq<char>)
    ensures
        crate::config::name_shape(text) <==> is_plain_name(text),
        is_plain_name(text) ==> forall|i: int| 0 <= i < text.len() ==> #[trigger] text[i] != '.',
{
    assert forall|i: int| 0 <= i < text.len() implies (crate::text::is_alphanumeric(
        #[trigger] text[i],
    ) <==> 0x30 <= text[i] as u32 <= 0x39 || 0x41 <= text[i] as u32 <= 0x5a || 0x61
        <= text[i] as u32 <= 0x7a) by {
        letters_and_digits_are_ascii(text[i]);
    }
    assert('.' as u32 == 0x2e);
}

proof fn words_have_no_dot()
    ensures
        forall|i: int| 0 <= i < "env"@.len() ==> #[trigger] "env"@[i] != '.',
        forall|i: int| 0 <= i < "profile"@.len() ==> #[trigger] "profile"@[i] != '.',
        forall|i: int| 0 <= i < "service"@.len() ==> #[trigger] "service"@[i] != '.',
        forall|i: int| 0 <= i < "platform"@.len() ==> #[trigger] "platform"@[i] != '.',
        forall|i: int| 0 <= i < "architecture"@.len() ==> #[trigger] "architecture"@[i] != '.',
        "env"@ != "profile"@,
        "env"@ != "service"@,
        "profile"@ != "service"@,
        "platform"@ != "architecture"@,
{
    reveal_strlit("env");
    reveal_strlit("profile");
    reveal_strlit("service");
    reveal_strlit("platform");
    reveal_strlit("architecture");
    assert("env"@.len() == 3 && "profile"@.len() == 7 && "service"@.len() == 7
        && "platform"@.len() == 8 && "architecture"@.len() == 12);
    assert("profile"@[0] == 'p' && "service"@[0] == 's');
}

proof fn parts_of_written(reference: Reference, parts: Seq<Seq<char>>)
    requires
        names_well(reference),
        match reference {
            Reference::Platform => parts == seq!["platform"@],
            Reference::Architecture => parts == seq!["architecture"@],
            Reference::Env(name) => parts == seq!["env"@, name],
            Reference::Profile(name) => parts == seq!["profile"@, name],
            Reference::Service(name, path) => parts == seq!["service"@, name] + path,
        },
    ensures
        pieces(rejoined(parts, '.'), '.') == parts,
        forall|i: int| 1 <= i < parts.len() ==> is_plain_name(#[trigger] parts[i]),
{
    words_have_no_dot();
    assert forall|i: int| 1 <= i < parts.len() implies is_plain_name(#[trigger] parts[i]) by {
        match reference {
            Reference::Service(name, path) => {
                if i >= 2 {
                    assert(parts[i] == path[i - 2]);
                }
            },
            _ => {},
        }
    }
    assert forall|i: int, j: int| 0 <= i < parts.len() && 0 <= j < parts[i].len() implies
        #[trigger] parts[i][j] != '.' by {
        if i >= 1 {
            names_are_plain(parts[i]);
        }
    }
    rejoined_pieces_split(parts, '.');
}

/// A text reads as a reference exactly if, without what wraps it, it is how
/// that reference is written, and all it names are names.
pub proof fn references_are_read_as_written(source: Seq<char>, reference: Reference)
    ensures
        parsed_reference(source) == Ok::<Reference, Seq<char>>(reference) <==> unwrapped(source)
            == written(reference) && names_well(reference),
{
    let text = unwrapped(source);
    let parts = pieces(text, '.');
    words_have_no_dot();
    pieces_rejoin(text, '.');
    assert forall|i: int| 0 <= i < parts.len() implies (crate::config::name_shape(
        #[trigger] parts[i],
    ) <==> is_plain_name(parts[i])) by {
        names_are_plain(parts[i]);
    }
    if parsed_reference(source) == Ok::<Reference, Seq<char>>(reference) {
        match reference {
            Reference::Env(name) => {
                assert(parts =~= seq!["env"@, name]);
            },
            Reference::Profile(name) => {
                assert(parts =~= seq!["profile"@, name]);
            },
            Reference::Service(name, path) => {
                assert(parts =~= seq!["service"@, name] + path);
                assert forall|i: int| 0 <= i < path.len() implies is_plain_name(
                    #[trigger] path[i],
                ) by {
                    assert(path[i] == parts[i + 2]);
                }
            },
            _ => {},
        }
    }
    if text == written(reference) && names_well(reference) {
        rejoined_pieces_split(seq!["platform"@], '.');
        rejoined_pieces_split(seq!["architecture"@], '.');
        assert(rejoined(seq!["platform"@], '.') =~= "platform"@);
        assert(rejoined(seq!["architecture"@], '.') =~= "architecture"@);
        match reference {
            Reference::Env(name) => {
                parts_of_written(reference, seq!["env"@, name]);
                assert(parts == seq!["env"@, name]);
            },
            Reference::Profile(name) => {
                parts_of_written(reference, seq!["profile"@, name]);
                assert(parts == seq!["profile"@, name]);
            },
            Reference::Service(name, path) => {
                parts_of_written(reference, seq!["service"@, name] + path);
                assert(parts == seq!["service"@, name] + path);
                assert(parts.subrange(2, parts.len() as int) =~= path);
            },
            _ => {},
        }
    }
}

/// The text in a dollar sign and braces.
pub open spec fn wrapped(text: Seq<char>) -> Seq<char> {
    seq!['$', '{'] + text + seq!['}']
}

/// A reference may be wrapped in a dollar sign and braces, once; nothing else
/// is taken off.
pub proof fn references_may_be_wrapped(text: Seq<char>)
    ensures
        unwrapped(wrapped(text)) == text,
        !(exists|inner: Seq<char>| text == #[trigger] wrapped(inner)) ==> unwrapped(text) == text,
{
    let whole = wrapped(text);
    assert(whole.last() == '}');
    assert(whole.subrange(2, whole.len() - 1) =~= text);
    if text.len() >= 3 && text[0] == '$' && text[1] == '{' && text.last() == '}' {
        let inner = text.subrange(2, text.len() - 1);
        assert(text =~= wrapped(inner));
    }
}

/// Where the members that were written are not as many as were read, a field
/// was given twice, and the document is refused; otherwise it is what its
/// contents say.
pub proof fn repeated_fields_are_refused(
    document: Result<Json, Seq<char>>,
    written: nat,
    inner: nat,
    source: Seq<char>,
)
    ensures
        document matches Ok(Json::Object(members)) ==> (members.len() != written
            ==> manifest_of_source(document, written, source) is Err && received_request(
            document,
            written,
            source,
        ) is Err && fixture_of_source(document, written, inner) is Err),
        document matches Ok(Json::Object(members)) ==> (members.len() == written
            ==> manifest_of_source(document, written, source) == manifest_of_document(
            document,
            source,
        )),
        document is Err ==> manifest_of_source(document, written, source) is Err
            && received_request(document, written, source) is Err && fixture_of_source(
            document,
            written,
            inner,
        ) is Err,
        fixture_of_source(document, written, inner) is Ok ==> fixture_of_source(
            document,
            written,
            inner,
        ) == fixture_of_document(document),
{
}

/// The runtimes of a loader are all of different kinds, or the first kind that
/// comes a second time is told.
pub proof fn runtimes_are_of_different_kinds(kinds: Seq<RuntimeKind>, from: int)
    requires
        0 <= from <= kinds.len(),
    ensures
        first_doubled(kinds, from) is None <==> forall|i: int, j: int|
            0 <= i < j < kinds.len() && from <= j ==> #[trigger] kinds[i] != #[trigger] kinds[j],
        first_doubled(kinds, from) matches Some(kind) ==> exists|i: int, j: int|
            0 <= i < j < kinds.len() && from <= j && #[trigger] kinds[i] == kind && #[trigger] kinds[j]
                == kind,
    decreases kinds.len() - from,
{
    if from < kinds.len() {
        runtimes_are_of_different_kinds(kinds, from + 1);
        let before = kinds.subrange(0, from);
        if before.contains(kinds[from]) {
            let i = choose|i: int| 0 <= i < before.len() && before[i] == kinds[from];
            assert(kinds[i] == kinds[from]);
        } else {
            assert forall|i: int| 0 <= i < from implies #[trigger] kinds[i] != kinds[from] by {
                assert(before[i] == kinds[i]);
            }
        }
    }
}

}
