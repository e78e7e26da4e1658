//! How two lines are compared: by what is left of each once the white
//! space at its end, line ending included, is taken off.

use vstd::prelude::*;

verus! {

/// Whether `c` has the Unicode property White_Space.
pub open spec fn is_whitespace(c: char) -> bool {
    let u = c as u32;
    ||| 0x09 <= u <= 0x0d
    ||| u == 0x20
    ||| u == 0x85
    ||| u == 0xa0
    ||| u == 0x1680
    ||| 0x2000 <= u <= 0x200a
    ||| u == 0x2028
    ||| u == 0x2029
    ||| u == 0x202f
    ||| u == 0x205f
    ||| u == 0x3000
}

/// `s` without the white space at its end: its longest prefix that is empty
/// or ends in a character that is no white space.
pub open spec fn trimmed(s: Seq<char>) -> Seq<char>
    decreases s.len(),
{
    if s.len() > 0 && is_whitespace(s.last()) {
        trimmed(s.drop_last())
    } else {
        s
    }
}

/// Two lines have the same content when they differ at most in the white
/// space at their ends.
pub open spec fn same_content(a: Seq<char>, b: Seq<char>) -> bool {
    trimmed(a) == trimmed(b)
}

/// Trusted: `str::trim_end`. std documents that it returns the slice with
/// trailing white space removed, white space being the characters with the
/// Unicode property White_Space; the contract says exactly that of the
/// characters returned.
#[verifier::external_body]
fn trim_end(s: &str) -> (r: &str)
    ensures
        r@ == trimmed(s@),
{
    s.trim_end()
}

/// Trusted: `==` on string slices holds exactly when both hold the same
/// characters in the same order.
pub assume_specification[ <str as PartialEq>::eq ](a: &str, b: &str) -> (r: bool)
    ensures
        r == (a@ == b@),
;

/// Whether `a` and `b` have the same content.
pub fn lines_match(a: &str, b: &str) -> (r: bool)
    ensures
        r == same_content(a@, b@),
{
    trim_end(a).eq(trim_end(b))
}

} // verus!
