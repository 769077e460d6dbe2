//! What the count of written members counts.

use vstd::prelude::*;

use crate::package::outermost;
use crate::repeats::{look_through, looked, written_members, Look};

verus! {

/// A part of a quoted text: a code that stands for itself, or one behind a
/// backslash.
pub enum Unit {
    Plain(u32),
    Escaped(u32),
}

/// A document as it is written.
pub enum Sketch {
    /// A number, a word or a space.
    Word(Seq<u32>),
    Text(Seq<Unit>),
    List(Seq<Sketch>),
    Record(Seq<(Seq<Unit>, Sketch)>),
}

/// The codes of the parts of a quoted text.
pub open spec fn unit_codes(units: Seq<Unit>) -> Seq<u32>
    decreases units.len(),
{
    if units.len() == 0 {
        Seq::empty()
    } else {
        unit_codes(units.drop_last()) + (match units.last() {
            Unit::Plain(code) => seq![code],
            Unit::Escaped(code) => seq![92u32, code],
        })
    }
}

/// The codes of a quoted text.
pub open spec fn text_codes(units: Seq<Unit>) -> Seq<u32> {
    seq![34u32] + unit_codes(units) + seq![34u32]
}

/// A comma, except before the first.
pub open spec fn comma(count: int) -> Seq<u32> {
    if count > 1 {
        seq![44u32]
    } else {
        Seq::empty()
    }
}

/// The codes of a document.
pub open spec fn codes(sketch: Sketch) -> Seq<u32>
    decreases sketch, 0int,
{
    match sketch {
        Sketch::Word(word) => word,
        Sketch::Text(units) => text_codes(units),
        Sketch::List(items) => seq![91u32] + item_codes(items, items.len() as int) + seq![93u32],
        Sketch::Record(members) => seq![123u32] + member_codes(members, members.len() as int)
            + seq![125u32],
    }
}

/// The codes of the first items of a list.
pub open spec fn item_codes(items: Seq<Sketch>, count: int) -> Seq<u32>
    decreases items, count,
{
    if count <= 0 || count > items.len() {
        Seq::empty()
    } else {
        item_codes(items, count - 1) + comma(count) + codes(items[count - 1])
    }
}

/// The codes of the first members of a record.
pub open spec fn member_codes(members: Seq<(Seq<Unit>, Sketch)>, count: int) -> Seq<u32>
    decreases members, count,
{
    if count <= 0 || count > members.len() {
        Seq::empty()
    } else {
        member_codes(members, count - 1) + comma(count) + text_codes(members[count - 1].0)
            + seq![58u32] + codes(members[count - 1].1)
    }
}

/// Quotes and backslashes stand in a text only behind a backslash.
pub open spec fn well_quoted(units: Seq<Unit>) -> bool {
    forall|i: int|
        0 <= i < units.len() ==> (#[trigger] units[i] matches Unit::Plain(code) ==> code != 34
            && code != 92)
}

/// The word holds none of the signs that structure a document.
pub open spec fn well_worded(word: Seq<u32>) -> bool {
    forall|i: int|
        0 <= i < word.len() ==> #[trigger] word[i] != 34 && word[i] != 58 && word[i] != 91
            && word[i] != 93 && word[i] != 123 && word[i] != 125
}

/// All words and texts of a document are written well.
pub open spec fn well_written(sketch: Sketch) -> bool
    decreases sketch,
{
    match sketch {
        Sketch::Word(word) => well_worded(word),
        Sketch::Text(units) => well_quoted(units),
        Sketch::List(items) => forall|i: int|
            0 <= i < items.len() ==> well_written(#[trigger] items[i]),
        Sketch::Record(members) => forall|i: int|
            0 <= i < members.len() ==> well_quoted((#[trigger] members[i]).0) && well_written(
                members[i].1,
            ),
    }
}

/// How many members the records of a document have that stand inside exactly
/// the wanted records and lists, themselves counted, when the document stands
/// inside the open ones.
pub open spec fn members_at(sketch: Sketch, open: Seq<bool>, wanted: Seq<bool>) -> nat
    decreases sketch, 0int,
{
    match sketch {
        Sketch::List(items) => in_items(items, items.len() as int, open.push(false), wanted),
        Sketch::Record(members) => in_members(
            members,
            members.len() as int,
            open.push(true),
            wanted,
        ) + (if open.push(true) == wanted {
            members.len()
        } else {
            0
        }),
        _ => 0,
    }
}

/// The members of records in the first items.
pub open spec fn in_items(items: Seq<Sketch>, count: int, open: Seq<bool>, wanted: Seq<bool>) -> nat
    decreases items, count,
{
    if count <= 0 || count > items.len() {
        0
    } else {
        in_items(items, count - 1, open, wanted) + members_at(items[count - 1], open, wanted)
    }
}

/// The members of records in the values of the first members.
pub open spec fn in_members(
    members: Seq<(Seq<Unit>, Sketch)>,
    count: int,
    open: Seq<bool>,
    wanted: Seq<bool>,
) -> nat
    decreases members, count,
{
    if count <= 0 || count > members.len() {
        0
    } else {
        in_members(members, count - 1, open, wanted) + members_at(
            members[count - 1].1,
            open,
            wanted,
        )
    }
}

/// The look after some codes.
spec fn after(look: Look, codes: Seq<u32>, wanted: Seq<bool>) -> Look
    decreases codes.len(),
{
    if codes.len() == 0 {
        look
    } else {
        looked(after(look, codes.drop_last(), wanted), codes.last(), wanted)
    }
}

proof fn after_both(look: Look, a: Seq<u32>, b: Seq<u32>, wanted: Seq<bool>)
    ensures
        after(look, a + b, wanted) == after(after(look, a, wanted), b, wanted),
    decreases b.len(),
{
    if b.len() == 0 {
        assert(a + b =~= a);
    } else {
        after_both(look, a, b.drop_last(), wanted);
        assert((a + b).drop_last() =~= a + b.drop_last());
        assert((a + b).last() == b.last());
    }
}

proof fn after_one(look: Look, code: u32, wanted: Seq<bool>)
    ensures
        after(look, seq![code], wanted) == looked(look, code, wanted),
{
    assert(seq![code].drop_last() =~= Seq::empty());
    assert(after(look, seq![code].drop_last(), wanted) == look);
}

proof fn looking_is_after(codes: Seq<u32>, count: int, start: Look, wanted: Seq<bool>)
    requires
        0 <= count <= codes.len(),
        start == look_through(codes, 0, wanted),
    ensures
        look_through(codes, count, wanted) == after(start, codes.subrange(0, count), wanted),
    decreases count,
{
    if count > 0 {
        looking_is_after(codes, count - 1, start, wanted);
        let part = codes.subrange(0, count);
        assert(part.drop_last() =~= codes.subrange(0, count - 1));
        assert(part.last() == codes[count - 1]);
    } else {
        assert(codes.subrange(0, 0).len() == 0);
    }
}

proof fn units_pass(look: Look, units: Seq<Unit>, wanted: Seq<bool>)
    requires
        well_quoted(units),
        look.quoted,
        !look.escaped,
    ensures
        after(look, unit_codes(units), wanted) == look,
    decreases units.len(),
{
    if units.len() > 0 {
        let shorter = units.drop_last();
        assert forall|i: int| 0 <= i < shorter.len() implies (#[trigger] shorter[i]
            matches Unit::Plain(code) ==> code != 34 && code != 92) by {
            assert(shorter[i] == units[i]);
        }
        units_pass(look, shorter, wanted);
        assert(units.last() == units[units.len() - 1]);
        match units.last() {
            Unit::Plain(code) => {
                after_both(look, unit_codes(shorter), seq![code], wanted);
                after_one(look, code, wanted);
            },
            Unit::Escaped(code) => {
                let escaped = Look { escaped: true, ..look };
                after_both(look, unit_codes(shorter), seq![92u32, code], wanted);
                assert(seq![92u32, code] =~= seq![92u32] + seq![code]);
                after_both(look, seq![92u32], seq![code], wanted);
                after_one(look, 92, wanted);
                after_one(escaped, code, wanted);
                assert(looked(escaped, code, wanted) == look);
            },
        }
    }
}

proof fn texts_pass(look: Look, units: Seq<Unit>, wanted: Seq<bool>)
    requires
        well_quoted(units),
        !look.quoted,
        !look.escaped,
    ensures
        after(look, text_codes(units), wanted) == look,
{
    let quoted = Look { quoted: true, ..look };
    let inner = unit_codes(units);
    after_both(look, seq![34u32] + inner, seq![34u32], wanted);
    after_both(look, seq![34u32], inner, wanted);
    after_one(look, 34, wanted);
    units_pass(quoted, units, wanted);
    after_one(quoted, 34, wanted);
    assert(looked(quoted, 34, wanted) == look);
}

proof fn words_pass(look: Look, word: Seq<u32>, wanted: Seq<bool>)
    requires
        well_worded(word),
        !look.quoted,
        !look.escaped,
    ensures
        after(look, word, wanted) == look,
    decreases word.len(),
{
    if word.len() > 0 {
        let shorter = word.drop_last();
        assert forall|i: int| 0 <= i < shorter.len() implies #[trigger] shorter[i] != 34
            && shorter[i] != 58 && shorter[i] != 91 && shorter[i] != 93 && shorter[i] != 123
            && shorter[i] != 125 by {
            assert(shorter[i] == word[i]);
        }
        words_pass(look, shorter, wanted);
        assert(word.last() == word[word.len() - 1]);
    }
}

proof fn commas_pass(look: Look, count: int, wanted: Seq<bool>)
    requires
        !look.quoted,
    ensures
        after(look, comma(count), wanted) == look,
{
    if count > 1 {
        after_one(look, 44, wanted);
    }
}

proof fn items_count(look: Look, items: Seq<Sketch>, count: int, wanted: Seq<bool>)
    requires
        0 <= count <= items.len(),
        forall|i: int| 0 <= i < items.len() ==> well_written(#[trigger] items[i]),
        !look.quoted,
        !look.escaped,
    ensures
        after(look, item_codes(items, count), wanted) == (Look {
            members: look.members + in_items(items, count, look.open, wanted),
            ..look
        }),
    decreases items, count,
{
    if count > 0 {
        items_count(look, items, count - 1, wanted);
        let item = items[count - 1];
        let before = item_codes(items, count - 1);
        let middle = Look {
            members: look.members + in_items(items, count - 1, look.open, wanted),
            ..look
        };
        after_both(look, before + comma(count), codes(item), wanted);
        after_both(look, before, comma(count), wanted);
        commas_pass(middle, count, wanted);
        sketches_count(middle, item, wanted);
    }
}

proof fn members_count(
    look: Look,
    members: Seq<(Seq<Unit>, Sketch)>,
    count: int,
    wanted: Seq<bool>,
)
    requires
        0 <= count <= members.len(),
        forall|i: int|
            0 <= i < members.len() ==> well_quoted((#[trigger] members[i]).0) && well_written(
                members[i].1,
            ),
        !look.quoted,
        !look.escaped,
    ensures
        after(look, member_codes(members, count), wanted) == (Look {
            members: look.members + in_members(members, count, look.open, wanted) + (if look.open
                == wanted {
                count as nat
            } else {
                0
            }),
            ..look
        }),
    decreases members, count,
{
    if count > 0 {
        members_count(look, members, count - 1, wanted);
        let (key, value) = members[count - 1];
        let before = member_codes(members, count - 1);
        let middle = Look {
            members: look.members + in_members(members, count - 1, look.open, wanted) + (
            if look.open == wanted {
                (count - 1) as nat
            } else {
                0
            }),
            ..look
        };
        let counted = Look {
            members: middle.members + (if look.open == wanted {
                1nat
            } else {
                0nat
            }),
            ..look
        };
        let a = before + comma(count);
        let b = a + text_codes(key);
        after_both(look, b + seq![58u32], codes(value), wanted);
        after_both(look, b, seq![58u32], wanted);
        after_both(look, a, text_codes(key), wanted);
        after_both(look, before, comma(count), wanted);
        commas_pass(middle, count, wanted);
        assert(well_quoted(members[count - 1].0));
        texts_pass(middle, key, wanted);
        after_one(middle, 58, wanted);
        assert(looked(middle, 58, wanted) == counted);
        assert(decreases_to!(members => members[count - 1]));
        assert(decreases_to!(members[count - 1] => members[count - 1].1));
        sketches_count(counted, value, wanted);
    } else {
        assert(after(look, member_codes(members, count), wanted) == look);
    }
}

proof fn sketches_count(look: Look, sketch: Sketch, wanted: Seq<bool>)
    requires
        well_written(sketch),
        !look.quoted,
        !look.escaped,
    ensures
        after(look, codes(sketch), wanted) == (Look {
            members: look.members + members_at(sketch, look.open, wanted),
            ..look
        }),
    decreases sketch, 0int,
{
    match sketch {
        Sketch::Word(word) => words_pass(look, word, wanted),
        Sketch::Text(units) => texts_pass(look, units, wanted),
        Sketch::List(items) => {
            let inner = item_codes(items, items.len() as int);
            let inside = Look { open: look.open.push(false), ..look };
            after_both(look, seq![91u32] + inner, seq![93u32], wanted);
            after_both(look, seq![91u32], inner, wanted);
            after_one(look, 91, wanted);
            items_count(inside, items, items.len() as int, wanted);
            let filled = after(inside, inner, wanted);
            after_one(filled, 93, wanted);
            assert(look.open.push(false).drop_last() =~= look.open);
        },
        Sketch::Record(members) => {
            let inner = member_codes(members, members.len() as int);
            let inside = Look { open: look.open.push(true), ..look };
            after_both(look, seq![123u32] + inner, seq![125u32], wanted);
            after_both(look, seq![123u32], inner, wanted);
            after_one(look, 123, wanted);
            members_count(inside, members, members.len() as int, wanted);
            let filled = after(inside, inner, wanted);
            after_one(filled, 125, wanted);
            assert(look.open.push(true).drop_last() =~= look.open);
        },
    }
}

/// The count of written members is the number of members, given twice or not,
/// of the records at the wanted place: what stands in texts, in other records
/// or in lists elsewhere does not count.
pub proof fn members_are_counted_at_their_place(sketch: Sketch, wanted: Seq<bool>)
    requires
        well_written(sketch),
    ensures
        written_members(codes(sketch), wanted) == members_at(sketch, Seq::empty(), wanted),
{
    let all = codes(sketch);
    let start = look_through(all, 0, wanted);
    looking_is_after(all, all.len() as int, start, wanted);
    assert(all.subrange(0, all.len() as int) =~= all);
    sketches_count(start, sketch, wanted);
}

proof fn nothing_deeper_counts_of_items(
    items: Seq<Sketch>,
    count: int,
    open: Seq<bool>,
    wanted: Seq<bool>,
)
    requires
        open.len() >= wanted.len(),
        0 <= count <= items.len(),
    ensures
        in_items(items, count, open, wanted) == 0,
    decreases items, count,
{
    if count > 0 {
        nothing_deeper_counts_of_items(items, count - 1, open, wanted);
        nothing_deeper_counts(items[count - 1], open, wanted);
    }
}

proof fn nothing_deeper_counts_of_members(
    members: Seq<(Seq<Unit>, Sketch)>,
    count: int,
    open: Seq<bool>,
    wanted: Seq<bool>,
)
    requires
        open.len() >= wanted.len(),
        0 <= count <= members.len(),
    ensures
        in_members(members, count, open, wanted) == 0,
    decreases members, count,
{
    if count > 0 {
        nothing_deeper_counts_of_members(members, count - 1, open, wanted);
        assert(decreases_to!(members => members[count - 1]));
        assert(decreases_to!(members[count - 1] => members[count - 1].1));
        nothing_deeper_counts(members[count - 1].1, open, wanted);
    }
}

proof fn nothing_deeper_counts(sketch: Sketch, open: Seq<bool>, wanted: Seq<bool>)
    requires
        open.len() >= wanted.len(),
    ensures
        members_at(sketch, open, wanted) == 0,
    decreases sketch, 0int,
{
    match sketch {
        Sketch::List(items) => nothing_deeper_counts_of_items(
            items,
            items.len() as int,
            open.push(false),
            wanted,
        ),
        Sketch::Record(members) => nothing_deeper_counts_of_members(
            members,
            members.len() as int,
            open.push(true),
            wanted,
        ),
        _ => {},
    }
}

/// The outermost members of a record are all counted, whatever its values hold,
/// and a document of another kind has none.
pub proof fn outermost_members_are_counted(sketch: Sketch)
    requires
        well_written(sketch),
    ensures
        sketch matches Sketch::Record(members) ==> written_members(codes(sketch), outermost())
            == members.len(),
        !(sketch is Record) && !(sketch is List) ==> written_members(codes(sketch), outermost())
            == 0,
{
    let none = Seq::<bool>::empty();
    members_are_counted_at_their_place(sketch, outermost());
    match sketch {
        Sketch::Record(members) => {
            nothing_deeper_counts_of_members(
                members,
                members.len() as int,
                none.push(true),
                outermost(),
            );
            assert(none.push(true) =~= outermost());
        },
        _ => {},
    }
}

}
