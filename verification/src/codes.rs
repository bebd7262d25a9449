use vstd::prelude::*;

verus! {

/// The wire form of a room code is exactly eight alphanumeric characters.
/// Whether a character counts as alphanumeric is decided by the Unicode
/// tables behind `char::is_alphanumeric`, named here and relied on through
/// the trusted wrapper below.
pub uninterp spec fn char_alphanumeric(c: char) -> bool;

/// Relies on `char::is_alphanumeric` of std: a pure predicate on the
/// character alone, per the Unicode alphanumeric classification.
#[verifier::external_body]
fn is_alphanumeric_char(c: char) -> (r: bool)
    ensures
        r == char_alphanumeric(c),
{
    c.is_alphanumeric()
}

/// An eight-character room code identifying one room.
#[derive(PartialEq, Eq, Debug)]
pub struct RoomCode {
    pub chars: Vec<char>,
}

impl RoomCode {
    /// Well-formed codes hold exactly eight characters.
    pub open spec fn wf(self) -> bool {
        self.chars@.len() == 8
    }

    /// Accepts exactly the wire form: eight characters, all alphanumeric.
    pub open spec fn spec_wire_form(text: Seq<char>) -> bool {
        &&& text.len() == 8
        &&& forall|i: int| 0 <= i < text.len() ==> char_alphanumeric(#[trigger] text[i])
    }

    /// Validates decoded text against the wire form; every conforming input
    /// becomes a code, every other input is rejected.
    pub fn parse(text: Vec<char>) -> (r: Option<RoomCode>)
        ensures
            match r {
                Some(code) => Self::spec_wire_form(text@) && code.chars@ == text@ && code.wf(),
                None => !Self::spec_wire_form(text@),
            },
    {
        if text.len() != 8 {
            return None;
        }
        let mut i: usize = 0;
        while i < text.len()
            invariant
                text@.len() == 8,
                i <= text@.len(),
                forall|j: int| 0 <= j < i ==> char_alphanumeric(#[trigger] text@[j]),
            decreases text@.len() - i,
        {
            if !is_alphanumeric_char(text[i]) {
                return None;
            }
            i += 1;
        }
        Some(RoomCode { chars: text })
    }

    /// Builds a code directly from eight characters, with no wire-form check;
    /// mirrors construction from a fixed-size literal.
    pub fn from_array(value: [char; 8]) -> (r: RoomCode)
        ensures
            r.chars@ == value@,
            r.wf(),
    {
        let mut chars: Vec<char> = Vec::new();
        let mut i: usize = 0;
        while i < 8
            invariant
                i <= 8,
                chars@.len() == i,
                forall|j: int| 0 <= j < i ==> chars@[j] == value@[j],
            decreases 8 - i,
        {
            chars.push(value[i]);
            i += 1;
        }
        proof {
            assert(chars@ =~= value@);
        }
        RoomCode { chars }
    }

    /// Character-wise equality of two codes.
    pub fn same_code(&self, other: &RoomCode) -> (b: bool)
        ensures
            b == (self.chars@ == other.chars@),
    {
        if self.chars.len() != other.chars.len() {
            proof {
                assert(self.chars@ != other.chars@);
            }
            return false;
        }
        let mut i: usize = 0;
        while i < self.chars.len()
            invariant
                self.chars@.len() == other.chars@.len(),
                i <= self.chars@.len(),
                forall|j: int| 0 <= j < i ==> self.chars@[j] == other.chars@[j],
            decreases self.chars@.len() - i,
        {
            if self.chars[i] != other.chars[i] {
                return false;
            }
            i += 1;
        }
        proof {
            assert(self.chars@ =~= other.chars@);
        }
        true
    }
}

impl Clone for RoomCode {
    /// Clones match the original, character for character.
    fn clone(&self) -> (r: Self)
        ensures
            r.chars@ == self.chars@,
    {
        let mut chars: Vec<char> = Vec::new();
        let mut i: usize = 0;
        while i < self.chars.len()
            invariant
                i <= self.chars@.len(),
                chars@.len() == i,
                forall|j: int| 0 <= j < i ==> chars@[j] == self.chars@[j],
            decreases self.chars@.len() - i,
        {
            chars.push(self.chars[i]);
            i += 1;
        }
        proof {
            assert(chars@ =~= self.chars@);
        }
        RoomCode { chars }
    }
}

} // verus!
