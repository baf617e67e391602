use vstd::prelude::*;

verus! {

/// One decoded unit of user input.
#[derive(Debug, Clone, Copy, PartialEq, Eq, Structural)]
pub enum Key {
    Char(char),
    Backspace,
    Space,
    Enter,
    Esc,
}

impl Key {
    /// The key that a typed character stands for: a blank is `Space`, a
    /// newline is `Enter`, anything else is that character.
    pub open spec fn spec_from_char(ch: char) -> Key {
        if ch == ' ' {
            Key::Space
        } else if ch == '\n' {
            Key::Enter
        } else {
            Key::Char(ch)
        }
    }

    pub fn from_char(ch: char) -> (k: Key)
        ensures
            k == Key::spec_from_char(ch),
    {
        if ch == ' ' {
            Key::Space
        } else if ch == '\n' {
            Key::Enter
        } else {
            Key::Char(ch)
        }
    }
}

/// Every key of `s` is a character key.
pub open spec fn all_chars(s: Seq<Key>) -> bool {
    forall|i: int| 0 <= i < s.len() ==> (#[trigger] s[i]) is Char
}

/// The key of one typed character.
pub open spec fn char_key(c: char) -> Key {
    Key::Char(c)
}

/// The characters that a sequence of character keys spells.
pub open spec fn keys_of(s: Seq<char>) -> Seq<Key> {
    Seq::new(s.len(), |i: int| char_key(s[i]))
}

} // verus!
