//! Repeated fields: how many members an object has where it is written, which
//! a value that keeps each key once no longer tells.

use vstd::prelude::*;

use crate::text::characters;

verus! {

/// Where a look through a document stands: the objects (true) and lists
/// (false) that are open, whether it is inside a text, and the members that it
/// has met.
#[verifier::ext_equal]
pub struct Look {
    pub open: Seq<bool>,
    pub quoted: bool,
    pub escaped: bool,
    pub members: nat,
}

/// The look after one more character. Each member of an object has one colon
/// outside texts; those in objects that lie as `wanted` says are counted.
pub open spec fn looked(look: Look, code: u32, wanted: Seq<bool>) -> Look {
    if look.quoted {
        if look.escaped {
            Look { escaped: false, ..look }
        } else if code == 92 {
            Look { escaped: true, ..look }
        } else if code == 34 {
            Look { quoted: false, ..look }
        } else {
            look
        }
    } else if code == 34 {
        Look { quoted: true, ..look }
    } else if code == 123 {
        Look { open: look.open.push(true), ..look }
    } else if code == 91 {
        Look { open: look.open.push(false), ..look }
    } else if code == 125 || code == 93 {
        Look {
            open: if look.open.len() > 0 {
                look.open.drop_last()
            } else {
                look.open
            },
            ..look
        }
    } else if code == 58 && look.open == wanted {
        Look { members: look.members + 1, ..look }
    } else {
        look
    }
}

/// The look after `codes[..count]`.
pub open spec fn look_through(codes: Seq<u32>, count: int, wanted: Seq<bool>) -> Look
    decreases count,
{
    if count <= 0 {
        Look { open: Seq::empty(), quoted: false, escaped: false, members: 0 }
    } else {
        looked(look_through(codes, count - 1, wanted), codes[count - 1], wanted)
    }
}

/// How many members the objects that lie as `wanted` says are written with.
pub open spec fn written_members(codes: Seq<u32>, wanted: Seq<bool>) -> nat {
    look_through(codes, codes.len() as int, wanted).members
}

/// The codes of a text.
pub open spec fn text_codes(text: Seq<char>) -> Seq<u32> {
    Seq::new(text.len(), |i: int| text[i] as u32)
}

/// The codes of bytes.
pub open spec fn byte_codes(bytes: Seq<u8>) -> Seq<u32> {
    Seq::new(bytes.len(), |i: int| bytes[i] as u32)
}

struct Looking {
    open: Vec<bool>,
    quoted: bool,
    escaped: bool,
    members: usize,
}

impl View for Looking {
    type V = Look;

    closed spec fn view(&self) -> Look {
        Look {
            open: self.open@,
            quoted: self.quoted,
            escaped: self.escaped,
            members: self.members as nat,
        }
    }
}

fn lies_there(open: &Vec<bool>, wanted: &Vec<bool>) -> (result: bool)
    ensures
        result == (open@ == wanted@),
{
    if open.len() != wanted.len() {
        return false;
    }
    let mut i: usize = 0;
    while i < open.len()
        invariant
            i <= open@.len() == wanted@.len(),
            forall|k: int| 0 <= k < i ==> open@[k] == wanted@[k],
        decreases open@.len() - i,
    {
        if open[i] != wanted[i] {
            assert(open@[i as int] != wanted@[i as int]);
            return false;
        }
        i += 1;
    }
    assert(open@ =~= wanted@);
    true
}

impl Looking {
    fn start() -> (result: Self)
        ensures
            result@ == look_through(Seq::empty(), 0, Seq::empty()),
            result.members == 0,
    {
        let result = Looking {
            open: Vec::new(),
            quoted: false,
            escaped: false,
            members: 0,
        };
        assert(result.open@ =~= Seq::empty());
        result
    }

    fn look(&mut self, code: u32, wanted: &Vec<bool>)
        requires
            old(self).members < usize::MAX,
        ensures
            final(self)@ == looked(old(self)@, code, wanted@),
            final(self).members <= old(self).members + 1,
    {
        if self.quoted {
            if self.escaped {
                self.escaped = false;
            } else if code == 92 {
                self.escaped = true;
            } else if code == 34 {
                self.quoted = false;
            }
        } else if code == 34 {
            self.quoted = true;
        } else if code == 123 {
            self.open.push(true);
        } else if code == 91 {
            self.open.push(false);
        } else if code == 125 || code == 93 {
            self.open.pop();
        } else if code == 58 && lies_there(&self.open, wanted) {
            self.members = self.members + 1;
        }
    }
}

/// Counts the members that a text is written with.
pub fn count_in_text(text: &str, wanted: &Vec<bool>) -> (result: usize)
    ensures
        result == written_members(text_codes(text@), wanted@),
{
    let chars = characters(text);
    let ghost codes = text_codes(text@);
    let mut looking = Looking::start();
    let mut i: usize = 0;
    while i < chars.len()
        invariant
            i <= chars@.len(),
            chars@ == text@,
            codes == text_codes(text@),
            looking@ == look_through(codes, i as int, wanted@),
            looking.members <= i,
        decreases chars@.len() - i,
    {
        assert(codes[i as int] == chars@[i as int] as u32);
        looking.look(chars[i] as u32, wanted);
        i += 1;
    }
    looking.members
}

/// Counts the members that bytes are written with.
pub fn count_in_bytes(bytes: &[u8], wanted: &Vec<bool>) -> (result: usize)
    ensures
        result == written_members(byte_codes(bytes@), wanted@),
{
    let ghost codes = byte_codes(bytes@);
    let mut looking = Looking::start();
    let mut i: usize = 0;
    while i < bytes.len()
        invariant
            i <= bytes@.len(),
            codes == byte_codes(bytes@),
            looking@ == look_through(codes, i as int, wanted@),
            looking.members <= i,
        decreases bytes@.len() - i,
    {
        assert(codes[i as int] == bytes@[i as int] as u32);
        looking.look(bytes[i] as u32, wanted);
        i += 1;
    }
    looking.members
}

}
