//! What holds of texts: how they split, how they are ordered, and what they
//! contain.

use vstd::prelude::*;

use crate::text::{
    blank, decimal_text, digit, is_alphanumeric, is_digit, is_lower, is_space, is_upper, occurs,
    pieces, pieces_are_never_empty, starts_with, text_before,
};

verus! {

/// The pieces with the separator between each two of them.
pub open spec fn rejoined(parts: Seq<Seq<char>>, separator: char) -> Seq<char>
    decreases parts.len(),
{
    if parts.len() == 0 {
        Seq::empty()
    } else if parts.len() == 1 {
        parts[0]
    } else {
        parts[0].push(separator) + rejoined(parts.drop_first(), separator)
    }
}

/// A text is its pieces with the separator between them, and no piece holds the
/// separator.
pub proof fn pieces_rejoin(text: Seq<char>, separator: char)
    ensures
        rejoined(pieces(text, separator), separator) == text,
        forall|i: int, j: int|
            0 <= i < pieces(text, separator).len() && 0 <= j < pieces(text, separator)[i].len()
                ==> #[trigger] pieces(text, separator)[i][j] != separator,
    decreases text.len(),
{
    let parts = pieces(text, separator);
    if text.len() == 0 {
        assert(parts[0] =~= text);
    } else {
        let shorter = text.drop_first();
        let rest = pieces(shorter, separator);
        pieces_rejoin(shorter, separator);
        pieces_are_never_empty(shorter, separator);
        if text[0] == separator {
            assert(parts.drop_first() =~= rest);
            assert(rejoined(parts, separator) =~= text);
        } else {
            let tail = rest.drop_first();
            assert(parts.drop_first() =~= tail);
            assert(parts[0] == seq![text[0]] + rest[0]);
            assert(text =~= seq![text[0]] + shorter);
            if rest.len() == 1 {
                assert(parts.len() == 1);
                assert(rejoined(parts, separator) == parts[0]);
                assert(rejoined(rest, separator) == rest[0]);
            } else {
                assert(parts.len() == rest.len());
                assert(rejoined(parts, separator) == parts[0].push(separator) + rejoined(
                    tail,
                    separator,
                ));
                assert(rejoined(rest, separator) == rest[0].push(separator) + rejoined(
                    tail,
                    separator,
                ));
                assert(parts[0].push(separator) + rejoined(tail, separator) =~= seq![text[0]] + (
                rest[0].push(separator) + rejoined(tail, separator)));
            }
            assert forall|i: int, j: int|
                0 <= i < parts.len() && 0 <= j < parts[i].len() implies #[trigger] parts[i][j]
                != separator by {
                if i == 0 {
                    if j > 0 {
                        assert(parts[0][j] == rest[0][j - 1]);
                    }
                } else {
                    assert(parts[i] == rest[i]);
                }
            }
        }
    }
}

/// Splitting undoes rejoining: pieces without the separator come back.
pub proof fn rejoined_pieces_split(parts: Seq<Seq<char>>, separator: char)
    requires
        parts.len() > 0,
        forall|i: int, j: int|
            0 <= i < parts.len() && 0 <= j < parts[i].len() ==> #[trigger] parts[i][j] != separator,
    ensures
        pieces(rejoined(parts, separator), separator) == parts,
    decreases parts.len(),
{
    if parts.len() == 1 {
        unbroken_text(parts[0], separator);
        assert(parts =~= seq![parts[0]]);
    } else {
        let rest = parts.drop_first();
        assert forall|i: int, j: int| 0 <= i < rest.len() && 0 <= j < rest[i].len() implies
            #[trigger] rest[i][j] != separator by {
            assert(rest[i] == parts[i + 1]);
            assert(parts[i + 1][j] != separator);
        }
        rejoined_pieces_split(rest, separator);
        text_before_separator(parts[0], rejoined(rest, separator), separator);
        assert(seq![parts[0]] + rest =~= parts);
    }
}

proof fn unbroken_text(text: Seq<char>, separator: char)
    requires
        forall|j: int| 0 <= j < text.len() ==> #[trigger] text[j] != separator,
    ensures
        pieces(text, separator) == seq![text],
    decreases text.len(),
{
    if text.len() > 0 {
        unbroken_text(text.drop_first(), separator);
        assert(seq![text[0]] + text.drop_first() =~= text);
        assert(pieces(text, separator) =~= seq![text]);
    } else {
        assert(text =~= Seq::empty());
    }
}

proof fn text_before_separator(first: Seq<char>, rest: Seq<char>, separator: char)
    requires
        forall|j: int| 0 <= j < first.len() ==> #[trigger] first[j] != separator,
    ensures
        pieces(first.push(separator) + rest, separator) == seq![first] + pieces(rest, separator),
    decreases first.len(),
{
    let whole = first.push(separator) + rest;
    if first.len() == 0 {
        assert(whole.drop_first() =~= rest);
        assert(first =~= Seq::empty());
    } else {
        let shorter = first.drop_first();
        text_before_separator(shorter, rest, separator);
        assert(whole.drop_first() =~= shorter.push(separator) + rest);
        let tail = pieces(whole.drop_first(), separator);
        assert(tail == seq![shorter] + pieces(rest, separator));
        assert(tail.drop_first() =~= pieces(rest, separator));
        assert(seq![first[0]] + shorter =~= first);
        assert(pieces(whole, separator) =~= seq![first] + pieces(rest, separator));
    }
}

/// Both texts have the same first `k` characters.
pub open spec fn share(a: Seq<char>, b: Seq<char>, k: int) -> bool {
    0 <= k <= a.len() && k <= b.len() && forall|i: int| 0 <= i < k ==> a[i] == b[i]
}

/// One text comes before another if, after what they share, it ends first or
/// goes on with the lower character.
pub proof fn order_is_by_the_first_difference(a: Seq<char>, b: Seq<char>)
    ensures
        text_before(a, b) <==> exists|k: int| #[trigger]
            share(a, b, k) && k < b.len() && (k == a.len() || (a[k] as u32) < (b[k] as u32)),
    decreases a.len(),
{
    if b.len() > 0 && a.len() > 0 {
        let x = a.drop_first();
        let y = b.drop_first();
        order_is_by_the_first_difference(x, y);
        if a[0] == b[0] {
            if text_before(a, b) {
                let k = choose|k: int| #[trigger]
                    share(x, y, k) && k < y.len() && (k == x.len() || (x[k] as u32) < (y[k] as u32));
                assert(share(a, b, k + 1)) by {
                    assert forall|i: int| 0 <= i < k + 1 implies a[i] == b[i] by {
                        if i > 0 {
                            assert(x[i - 1] == y[i - 1]);
                        }
                    }
                }
            }
            if exists|k: int| #[trigger]
                share(a, b, k) && k < b.len() && (k == a.len() || (a[k] as u32) < (b[k] as u32)) {
                let k = choose|k: int| #[trigger]
                    share(a, b, k) && k < b.len() && (k == a.len() || (a[k] as u32) < (b[k] as u32));
                assert(k > 0);
                assert(share(x, y, k - 1)) by {
                    assert forall|i: int| 0 <= i < k - 1 implies x[i] == y[i] by {
                        assert(a[i + 1] == b[i + 1]);
                    }
                }
            }
        } else {
            assert(share(a, b, 0));
            assert forall|k: int| #[trigger] share(a, b, k) implies k == 0 by {
                if k > 0 {
                    assert(a[0] == b[0]);
                }
            }
        }
    } else if b.len() > 0 {
        assert(share(a, b, 0));
    }
}

/// A part occurs in a text exactly if the text is something, the part, and
/// something; it starts the text exactly if the text is the part and something.
pub proof fn parts_are_surrounded(text: Seq<char>, part: Seq<char>)
    ensures
        occurs(text, part) <==> exists|before: Seq<char>, after: Seq<char>|
            text == #[trigger] (before + part + after),
        starts_with(text, part) <==> exists|after: Seq<char>| text == #[trigger] (part + after),
{
    if occurs(text, part) {
        let i = choose|i: int|
            0 <= i <= text.len() - part.len() && #[trigger] text.subrange(i, i + part.len())
                == part;
        let before = text.subrange(0, i);
        let after = text.subrange(i + part.len(), text.len() as int);
        assert(text =~= before + part + after) by {
            assert forall|k: int| 0 <= k < text.len() implies text[k] == (before + part
                + after)[k] by {
                if i <= k < i + part.len() {
                    assert(text.subrange(i, i + part.len())[k - i] == part[k - i]);
                }
            }
        }
    }
    if exists|before: Seq<char>, after: Seq<char>| text == #[trigger] (before + part + after) {
        let (before, after) = choose|before: Seq<char>, after: Seq<char>|
            text == #[trigger] (before + part + after);
        let i = before.len() as int;
        assert(text.subrange(i, i + part.len()) =~= part);
    }
    if starts_with(text, part) {
        let after = text.subrange(part.len() as int, text.len() as int);
        assert(text =~= part + after) by {
            assert forall|k: int| 0 <= k < text.len() implies text[k] == (part + after)[k] by {
                if k < part.len() {
                    assert(text.subrange(0, part.len() as int)[k] == part[k]);
                }
            }
        }
    }
    if exists|after: Seq<char>| text == #[trigger] (part + after) {
        let after = choose|after: Seq<char>| text == #[trigger] (part + after);
        assert(text.subrange(0, part.len() as int) =~= part);
    }
}

/// The number that decimal digits stand for.
pub open spec fn decimal_value(text: Seq<char>) -> nat
    decreases text.len(),
{
    if text.len() == 0 {
        0
    } else {
        decimal_value(text.drop_last()) * 10 + ((text.last() as nat) - ('0' as nat)) as nat
    }
}

/// The decimal form of a number is made of digits, starts with a zero only if
/// it is one, and stands for the number.
pub proof fn decimals_stand_for_their_number(value: nat)
    ensures
        decimal_text(value).len() > 0,
        decimal_value(decimal_text(value)) == value,
        forall|i: int|
            0 <= i < decimal_text(value).len() ==> '0' <= #[trigger] decimal_text(value)[i] <= '9',
        decimal_text(value)[0] == '0' ==> value == 0,
    decreases value,
{
    let text = decimal_text(value);
    let last = value % 10;
    assert(digit(last) as nat == '0' as nat + last) by {
        assert(0 <= last < 10);
        assert('0' as nat == 48);
    }
    if value < 10 {
        assert(text.drop_last() =~= Seq::empty());
        assert(decimal_value(text.drop_last()) == 0);
    } else {
        decimals_stand_for_their_number(value / 10);
        assert(text.drop_last() =~= decimal_text(value / 10));
        assert(value == (value / 10) * 10 + value % 10);
        assert forall|i: int| 0 <= i < text.len() implies '0' <= #[trigger] text[i] <= '9' by {
            if i < text.len() - 1 {
                assert(text[i] == decimal_text(value / 10)[i]);
            }
        }
        assert(text[0] == decimal_text(value / 10)[0]);
    }
}

/// Two texts in a row are blank exactly if both are; one character is exactly
/// if it is white space; and what is visible in ASCII is not.
pub proof fn blank_texts_hold_nothing_visible(a: Seq<char>, b: Seq<char>, c: char)
    ensures
        blank(a + b) <==> blank(a) && blank(b),
        blank(Seq::empty()),
        blank(seq![c]) <==> is_space(c),
        '!' <= c <= '~' ==> !is_space(c),
        c == ' ' || c == '\t' || c == '\n' || c == '\r' ==> is_space(c),
        (c as u32) < 0x80 && is_space(c) ==> c == ' ' || 0x09 <= (c as u32) <= 0x0d,
        is_space(c) && (c as u32) >= 0x80 ==> c as u32 == 0x85 || c as u32 == 0xa0 || c as u32
            == 0x1680 || 0x2000 <= c as u32 <= 0x200a || c as u32 == 0x2028 || c as u32 == 0x2029
            || c as u32 == 0x202f || c as u32 == 0x205f || c as u32 == 0x3000,
        c as u32 == 0x85 || c as u32 == 0xa0 || c as u32 == 0x1680 || 0x2000 <= c as u32 <= 0x200a
            || c as u32 == 0x2028 || c as u32 == 0x2029 || c as u32 == 0x202f || c as u32 == 0x205f
            || c as u32 == 0x3000 ==> is_space(c),
{
    if blank(a + b) {
        assert forall|i: int| 0 <= i < a.len() implies is_space(#[trigger] a[i]) by {
            assert((a + b)[i] == a[i]);
        }
        assert forall|i: int| 0 <= i < b.len() implies is_space(#[trigger] b[i]) by {
            assert((a + b)[a.len() + i] == b[i]);
        }
    }
    if blank(a) && blank(b) {
        assert forall|i: int| 0 <= i < (a + b).len() implies is_space(#[trigger] (a + b)[i]) by {
            if i >= a.len() {
                assert((a + b)[i] == b[i - a.len()]);
            }
        }
    }
    if blank(seq![c]) {
        assert(is_space(seq![c][0]));
    }
}

/// Letters and digits are those of ASCII, each of one kind.
pub proof fn letters_and_digits_are_ascii(c: char)
    ensures
        is_digit(c) <==> 0x30 <= c as u32 <= 0x39,
        is_upper(c) <==> 0x41 <= c as u32 <= 0x5a,
        is_lower(c) <==> 0x61 <= c as u32 <= 0x7a,
        is_alphanumeric(c) <==> 0x30 <= c as u32 <= 0x39 || 0x41 <= c as u32 <= 0x5a || 0x61
            <= c as u32 <= 0x7a,
{
    assert('0' as u32 == 0x30 && '9' as u32 == 0x39);
    assert('A' as u32 == 0x41 && 'Z' as u32 == 0x5a);
    assert('a' as u32 == 0x61 && 'z' as u32 == 0x7a);
}

}
