//! Small operations on text that the protocol needs.

use vstd::prelude::*;
use vstd::string::*;
use vstd::utf8::*;

verus! {

/// Whether a text begins with `/`, the mark of a command.
pub open spec fn is_command(text: Seq<char>) -> bool {
    text.len() > 0 && text[0] == '/'
}

/// A user's chat message as the other sessions see it.
pub open spec fn chat_line(name: Seq<char>, text: Seq<char>) -> Seq<char> {
    name + seq![':', ' '] + text
}

/// Tells whether two texts hold the same characters.
pub fn str_eq(a: &str, b: &str) -> (same: bool)
    ensures
        same == (a@ == b@),
{
    let x = a.as_bytes();
    let y = b.as_bytes();
    proof {
        encode_utf8_decode_utf8(a@);
        encode_utf8_decode_utf8(b@);
    }
    if x.len() != y.len() {
        return false;
    }
    let mut i: usize = 0;
    while i < x.len()
        invariant
            i <= x@.len(),
            x@ == encode_utf8(a@),
            y@ == encode_utf8(b@),
            x@.len() == y@.len(),
            forall|j: int| 0 <= j < i ==> x@[j] == y@[j],
        decreases x@.len() - i,
    {
        if x[i] != y[i] {
            return false;
        }
        i = i + 1;
    }
    assert(x@ =~= y@);
    true
}

/// Tells whether `text` is a command.
pub fn starts_with_slash(text: &str) -> (b: bool)
    ensures
        b == is_command(text@),
{
    if text.is_empty() {
        false
    } else {
        text.get_char(0) == '/'
    }
}

/// Builds the line under which `text`, sent by `name`, is shown to others.
pub fn make_chat_line(name: &str, text: &str) -> (line: String)
    ensures
        line@ == chat_line(name@, text@),
{
    let mut line = String::from_str(name);
    line.append(": ");
    line.append(text);
    proof {
        reveal_strlit(": ");
        assert(": "@ =~= seq![':', ' ']);
    }
    line
}

} // verus!
