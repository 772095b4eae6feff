//! Small text helpers shared by the engine: appending one character to a
//! `String`, and ASCII lowercasing.

use vstd::prelude::*;

verus! {

/// Relies on `String::push` from std: appends exactly one character.
#[verifier::external_body]
pub fn push_char(s: &mut String, c: char)
    ensures
        final(s)@ == old(s)@.push(c),
{
    s.push(c);
}

/// ASCII lowercasing of one character; other characters are unchanged.
pub open spec fn spec_lower_char(c: char) -> char {
    if 'A' <= c <= 'Z' {
        ((c as u8) + 0x20) as char
    } else {
        c
    }
}

/// ASCII lowercasing of a character sequence.
pub open spec fn spec_lower(s: Seq<char>) -> Seq<char> {
    s.map_values(|c: char| spec_lower_char(c))
}

/// Lowercases the ASCII letters of a string, leaving all other characters
/// unchanged.
pub fn ascii_lower(s: &str) -> (r: String)
    ensures
        r@ == spec_lower(s@),
{
    let n = s.unicode_len();
    let mut out = String::new();
    let mut i: usize = 0;
    while i < n
        invariant
            i <= n,
            n == s@.len(),
            out@ == spec_lower(s@.subrange(0, i as int)),
        decreases n - i,
    {
        let c = s.get_char(i);
        let lc: char = if 'A' <= c && c <= 'Z' {
            ((c as u8) + 0x20) as char
        } else {
            c
        };
        push_char(&mut out, lc);
        proof {
            assert(s@.subrange(0, i + 1).map_values(|c: char| spec_lower_char(c))
                =~= s@.subrange(0, i as int).map_values(|c: char| spec_lower_char(c)).push(
                spec_lower_char(s@[i as int])));
        }
        i += 1;
    }
    proof {
        assert(s@.subrange(0, n as int) =~= s@);
    }
    out
}

} // verus!
