//! Text helpers: character access, decimal rendering, and the character
//! classes used by identifiers.

use vstd::prelude::*;
use vstd::string::*;

verus! {

/// The characters of `text`, in order.
pub fn characters(text: &str) -> (result: Vec<char>)
    ensures
        result@ == text@,
{
    let mut result: Vec<char> = Vec::new();
    for c in iter: text.chars()
        invariant
            result@ == iter.seq().subrange(0, iter.index()),
            iter.seq() == text@,
    {
        result.push(c);
        proof {
            assert(iter.seq().subrange(0, iter.index() + 1) =~= iter.seq().subrange(
                0,
                iter.index(),
            ).push(c));
        }
    }
    assert(text@.subrange(0, text@.len() as int) =~= text@);
    result
}

/// Whether two texts hold the same characters.
pub fn same_text(left: &str, right: &str) -> (result: bool)
    ensures
        result == (left@ == right@),
{
    left.to_owned() == right.to_owned()
}

/// The decimal digit for `value`.
pub open spec fn digit(value: nat) -> char {
    (('0' as nat) + value) as char
}

/// The decimal rendering of `value`, without leading zeros.
pub open spec fn decimal_text(value: nat) -> Seq<char>
    decreases value,
{
    if value < 10 {
        seq![digit(value)]
    } else {
        decimal_text(value / 10).push(digit(value % 10))
    }
}

fn digit_str(value: u64) -> (result: &'static str)
    requires
        value < 10,
    ensures
        result@ == seq![digit(value as nat)],
{
    proof {
        reveal_strlit("0");
        reveal_strlit("1");
        reveal_strlit("2");
        reveal_strlit("3");
        reveal_strlit("4");
        reveal_strlit("5");
        reveal_strlit("6");
        reveal_strlit("7");
        reveal_strlit("8");
        reveal_strlit("9");
    }
    match value {
        0 => "0",
        1 => "1",
        2 => "2",
        3 => "3",
        4 => "4",
        5 => "5",
        6 => "6",
        7 => "7",
        8 => "8",
        _ => "9",
    }
}

/// Renders `value` in decimal.
pub fn decimal(value: u64) -> (result: String)
    ensures
        result@ == decimal_text(value as nat),
    decreases value,
{
    if value < 10 {
        digit_str(value).to_owned()
    } else {
        let mut result = decimal(value / 10);
        result.append(digit_str(value % 10));
        assert(result@ =~= decimal_text(value as nat));
        result
    }
}

/// Lexicographic order by code point.
pub open spec fn text_before(left: Seq<char>, right: Seq<char>) -> bool
    decreases left.len(),
{
    if right.len() == 0 {
        false
    } else if left.len() == 0 {
        true
    } else if left[0] != right[0] {
        (left[0] as u32) < (right[0] as u32)
    } else {
        text_before(left.drop_first(), right.drop_first())
    }
}

/// Whether `left` comes before `right` in code point order.
pub fn comes_before(left: &str, right: &str) -> (result: bool)
    ensures
        result == text_before(left@, right@),
{
    let a = characters(left);
    let b = characters(right);
    let mut i: usize = 0;
    assert(a@.subrange(0, a@.len() as int) =~= a@);
    assert(b@.subrange(0, b@.len() as int) =~= b@);
    while i < a.len() && i < b.len()
        invariant
            i <= a@.len(),
            i <= b@.len(),
            a@ == left@,
            b@ == right@,
            text_before(left@, right@) == text_before(
                a@.subrange(i as int, a@.len() as int),
                b@.subrange(i as int, b@.len() as int),
            ),
        decreases a@.len() - i,
    {
        proof {
            let x = a@.subrange(i as int, a@.len() as int);
            let y = b@.subrange(i as int, b@.len() as int);
            assert(x.drop_first() =~= a@.subrange(i + 1, a@.len() as int));
            assert(y.drop_first() =~= b@.subrange(i + 1, b@.len() as int));
        }
        if a[i] != b[i] {
            return (a[i] as u32) < (b[i] as u32);
        }
        i += 1;
    }
    i < b.len()
}

/// Code point order never puts a text before itself.
pub proof fn text_order_is_irreflexive(text: Seq<char>)
    ensures
        !text_before(text, text),
    decreases text.len(),
{
    if text.len() > 0 {
        text_order_is_irreflexive(text.drop_first());
    }
}

/// Code point order is transitive.
pub proof fn text_order_is_transitive(a: Seq<char>, b: Seq<char>, c: Seq<char>)
    requires
        text_before(a, b),
        text_before(b, c),
    ensures
        text_before(a, c),
    decreases a.len(),
{
    if a.len() > 0 && b.len() > 0 && c.len() > 0 && a[0] == b[0] && b[0] == c[0] {
        text_order_is_transitive(a.drop_first(), b.drop_first(), c.drop_first());
    }
}

proof fn distinct_code_points(a: char, b: char)
    requires
        a != b,
    ensures
        (a as u32) != (b as u32),
{
}

/// Of two different texts one comes before the other.
pub proof fn text_order_is_total(a: Seq<char>, b: Seq<char>)
    requires
        a != b,
    ensures
        text_before(a, b) || text_before(b, a),
    decreases a.len(),
{
    if a.len() > 0 && b.len() > 0 {
        if a[0] == b[0] {
            if a.drop_first() == b.drop_first() {
                assert(a =~= seq![a[0]] + a.drop_first());
                assert(b =~= seq![b[0]] + b.drop_first());
                assert(false);
            }
            text_order_is_total(a.drop_first(), b.drop_first());
        } else {
            distinct_code_points(a[0], b[0]);
        }
    } else if a.len() == 0 && b.len() == 0 {
        assert(a =~= b);
    }
}

/// Two texts, one after the other.
pub fn join2(a: &str, b: &str) -> (result: String)
    ensures
        result@ == a@ + b@,
{
    let mut result = a.to_owned();
    result.append(b);
    result
}

/// Three texts, one after the other.
pub fn join3(a: &str, b: &str, c: &str) -> (result: String)
    ensures
        result@ == a@ + b@ + c@,
{
    let mut result = a.to_owned();
    result.append(b);
    result.append(c);
    result
}

/// What the `{:?}` format of a string shows: the string in double quotes, with
/// quotes, backslashes and unprintable characters escaped.
pub uninterp spec fn quoted_text(text: Seq<char>) -> Seq<char>;

/// Quotes `text` for a message, as `std`'s `Debug` for `str` does. The result
/// depends on the text alone; which characters are escaped is not stated.
#[verifier::external_body]
pub(crate) fn quoted(text: &str) -> (result: String)
    ensures
        result@ == quoted_text(text@),
{
    format!("{:?}", text)
}

/// The characters with the Unicode property `White_Space`.
pub open spec fn is_space(c: char) -> bool {
    let code = c as u32;
    (0x09 <= code && code <= 0x0d) || code == 0x20 || code == 0x85 || code == 0xa0 || code
        == 0x1680 || (0x2000 <= code && code <= 0x200a) || code == 0x2028 || code == 0x2029 || code
        == 0x202f || code == 0x205f || code == 0x3000
}

/// Whether `c` is white space.
pub fn is_whitespace(c: char) -> (result: bool)
    ensures
        result == is_space(c),
{
    let code: u32 = c as u32;
    (0x09 <= code && code <= 0x0d) || code == 0x20 || code == 0x85 || code == 0xa0 || code
        == 0x1680 || (0x2000 <= code && code <= 0x200a) || code == 0x2028 || code == 0x2029 || code
        == 0x202f || code == 0x205f || code == 0x3000
}

/// A text without any character but white space.
pub open spec fn blank(text: Seq<char>) -> bool {
    forall|i: int| 0 <= i < text.len() ==> is_space(#[trigger] text[i])
}

/// Whether `text` is empty or only white space.
pub fn is_blank(text: &str) -> (result: bool)
    ensures
        result == blank(text@),
{
    let chars = characters(text);
    let mut i: usize = 0;
    while i < chars.len()
        invariant
            i <= chars@.len(),
            chars@ == text@,
            forall|j: int| 0 <= j < i ==> is_space(#[trigger] text@[j]),
        decreases chars@.len() - i,
    {
        if !is_whitespace(chars[i]) {
            assert(!is_space(text@[i as int]));
            return false;
        }
        i += 1;
    }
    true
}

/// An ASCII lower-case letter.
pub open spec fn is_lower(c: char) -> bool {
    'a' <= c && c <= 'z'
}

/// An ASCII upper-case letter.
pub open spec fn is_upper(c: char) -> bool {
    'A' <= c && c <= 'Z'
}

/// An ASCII digit.
pub open spec fn is_digit(c: char) -> bool {
    '0' <= c && c <= '9'
}

/// An ASCII letter or digit.
pub open spec fn is_alphanumeric(c: char) -> bool {
    is_lower(c) || is_upper(c) || is_digit(c)
}

/// Whether `c` is an ASCII lower-case letter.
pub fn lower(c: char) -> (result: bool)
    ensures
        result == is_lower(c),
{
    'a' <= c && c <= 'z'
}

/// Whether `c` is an ASCII digit.
pub fn numeric(c: char) -> (result: bool)
    ensures
        result == is_digit(c),
{
    '0' <= c && c <= '9'
}

/// Whether `c` is an ASCII letter or digit.
pub fn alphanumeric(c: char) -> (result: bool)
    ensures
        result == is_alphanumeric(c),
{
    lower(c) || ('A' <= c && c <= 'Z') || numeric(c)
}

/// The models of a list of texts.
pub open spec fn text_list(texts: Seq<String>) -> Seq<Seq<char>> {
    Seq::new(texts.len(), |i: int| texts[i]@)
}

/// Copies a list of texts.
pub fn clone_texts(texts: &Vec<String>) -> (result: Vec<String>)
    ensures
        text_list(result@) == text_list(texts@),
{
    let mut result: Vec<String> = Vec::new();
    let mut i: usize = 0;
    while i < texts.len()
        invariant
            i <= texts@.len(),
            result@.len() == i,
            forall|j: int| 0 <= j < i ==> (#[trigger] result@[j])@ == texts@[j]@,
        decreases texts@.len() - i,
    {
        result.push(texts[i].clone());
        i += 1;
    }
    assert(text_list(result@) =~= text_list(texts@));
    result
}

/// The pieces of `text` between occurrences of `separator`.
pub open spec fn pieces(text: Seq<char>, separator: char) -> Seq<Seq<char>>
    decreases text.len(),
{
    if text.len() == 0 {
        seq![Seq::<char>::empty()]
    } else {
        let rest = pieces(text.drop_first(), separator);
        if text[0] == separator {
            seq![Seq::<char>::empty()] + rest
        } else {
            seq![seq![text[0]] + rest[0]] + rest.drop_first()
        }
    }
}

/// There is always at least one piece.
pub proof fn pieces_are_never_empty(text: Seq<char>, separator: char)
    ensures
        pieces(text, separator).len() >= 1,
    decreases text.len(),
{
    if text.len() > 0 {
        pieces_are_never_empty(text.drop_first(), separator);
    }
}

/// Splits `text` at every `separator`.
pub fn split(text: &str, separator: char) -> (result: Vec<String>)
    ensures
        text_list(result@) == pieces(text@, separator),
{
    let chars = characters(text);
    let mut reversed: Vec<String> = Vec::new();
    let mut end: usize = chars.len();
    let mut i: usize = chars.len();
    let ghost all = text@;
    proof {
        assert(all.subrange(all.len() as int, all.len() as int) =~= Seq::empty());
        assert(pieces(Seq::<char>::empty(), separator) =~= seq![Seq::<char>::empty()]);
    }
    while i > 0
        invariant
            i <= end <= all.len(),
            all == text@,
            chars@ == all,
            pieces(all.subrange(i as int, all.len() as int), separator) =~= seq![all.subrange(
                i as int,
                end as int,
            )] + text_list(reversed@).reverse(),
        decreases i,
    {
        let ghost before = all.subrange(i as int, all.len() as int);
        let ghost after = all.subrange(i - 1, all.len() as int);
        proof {
            assert(after.drop_first() =~= before);
            assert(after[0] == all[i - 1]);
        }
        let ghost collected = text_list(reversed@).reverse();
        if chars[i - 1] == separator {
            let ghost last = end as int;
            reversed.push(text.substring_char(i, end).to_owned());
            end = i - 1;
            proof {
                assert(text_list(reversed@).reverse() =~= seq![all.subrange(i as int, last)]
                    + collected);
                assert(all.subrange(i - 1, i - 1) =~= Seq::empty());
            }
        } else {
            proof {
                assert(all.subrange(i - 1, end as int) =~= seq![all[i - 1]] + all.subrange(
                    i as int,
                    end as int,
                ));
                let rest = pieces(before, separator);
                assert(rest.drop_first() =~= collected);
            }
        }
        i -= 1;
    }
    let first = text.substring_char(0, end).to_owned();
    assert(all.subrange(0, all.len() as int) =~= all);
    reversed.push(first);
    let mut result: Vec<String> = Vec::new();
    let ghost parts = text_list(reversed@).reverse();
    assert(parts =~= pieces(all, separator));
    while reversed.len() > 0
        invariant
            parts == pieces(text@, separator),
            text_list(result@) + text_list(reversed@).reverse() =~= parts,
        decreases reversed@.len(),
    {
        let ghost count = reversed@.len();
        let ghost before_result = text_list(result@);
        let ghost before_rest = text_list(reversed@).reverse();
        match reversed.pop() {
            Some(piece) => {
                result.push(piece);
                proof {
                    assert(text_list(result@) =~= before_result.push(before_rest[0]));
                    assert(text_list(reversed@).reverse() =~= before_rest.drop_first());
                    assert(before_rest =~= seq![before_rest[0]] + before_rest.drop_first());
                }
            },
            None => {},
        }
    }
    assert(text_list(result@) =~= parts);
    result
}

/// `text` starts with `prefix`.
pub open spec fn starts_with(text: Seq<char>, prefix: Seq<char>) -> bool {
    prefix.len() <= text.len() && text.subrange(0, prefix.len() as int) == prefix
}

/// Whether `text` starts with `prefix`.
pub fn has_prefix(text: &str, prefix: &str) -> (result: bool)
    ensures
        result == starts_with(text@, prefix@),
{
    let length = text.unicode_len();
    let count = prefix.unicode_len();
    count <= length && same_text(text.substring_char(0, count), prefix)
}

/// Whether `texts` holds `text`.
pub fn holds_text(texts: &Vec<String>, text: &String) -> (result: bool)
    ensures
        result == text_list(texts@).contains(text@),
{
    let ghost model = text_list(texts@);
    let mut i: usize = 0;
    while i < texts.len()
        invariant
            i <= texts@.len(),
            model == text_list(texts@),
            forall|j: int| 0 <= j < i ==> #[trigger] model[j] != text@,
        decreases texts@.len() - i,
    {
        assert(model[i as int] == texts@[i as int]@);
        if texts[i] == *text {
            return true;
        }
        i += 1;
    }
    false
}

/// `part` occurs somewhere in `text`.
pub open spec fn occurs(text: Seq<char>, part: Seq<char>) -> bool {
    exists|i: int|
        0 <= i <= text.len() - part.len() && #[trigger] text.subrange(i, i + part.len()) == part
}

/// Whether `part` occurs in `text`.
pub fn contains_part(text: &str, part: &str) -> (result: bool)
    ensures
        result == occurs(text@, part@),
{
    let length = text.unicode_len();
    let count = part.unicode_len();
    if count > length {
        return false;
    }
    let mut i: usize = 0;
    while i <= length - count
        invariant
            i <= length - count + 1,
            count <= length,
            length == text@.len(),
            count == part@.len(),
            forall|k: int|
                0 <= k < i ==> #[trigger] text@.subrange(k, k + part@.len()) != part@,
        decreases length - count + 1 - i,
    {
        if same_text(text.substring_char(i, i + count), part) {
            return true;
        }
        if i == length - count {
            return false;
        }
        i += 1;
    }
    false
}

/// Different numbers have different decimal renderings.
pub proof fn decimal_text_is_injective(a: nat, b: nat)
    ensures
        decimal_text(a) == decimal_text(b) ==> a == b,
    decreases a,
{
    if decimal_text(a) == decimal_text(b) {
        let x = decimal_text(a);
        decimal_text_is_never_empty(a / 10);
        decimal_text_is_never_empty(b / 10);
        if a < 10 && b < 10 {
            assert(x[0] == digit(a));
            assert(x[0] == digit(b));
            distinct_digits(a, b);
        } else if a < 10 {
            assert(x.len() == 1);
            assert(decimal_text(b).len() == decimal_text(b / 10).len() + 1);
        } else if b < 10 {
            assert(decimal_text(b).len() == 1);
            assert(x.len() == decimal_text(a / 10).len() + 1);
        } else {
            assert(x.last() == digit(a % 10));
            assert(decimal_text(b).last() == digit(b % 10));
            distinct_digits(a % 10, b % 10);
            assert(x.drop_last() =~= decimal_text(a / 10));
            assert(decimal_text(b).drop_last() =~= decimal_text(b / 10));
            decimal_text_is_injective(a / 10, b / 10);
        }
    }
}

proof fn decimal_text_is_never_empty(value: nat)
    ensures
        decimal_text(value).len() >= 1,
    decreases value,
{
    if value >= 10 {
        decimal_text_is_never_empty(value / 10);
    }
}

proof fn distinct_digits(a: nat, b: nat)
    requires
        a < 10,
        b < 10,
    ensures
        digit(a) == digit(b) ==> a == b,
{
    assert(digit(a) as nat == '0' as nat + a);
    assert(digit(b) as nat == '0' as nat + b);
}

}
