//! The count field that may precede an emitted line.

use vstd::prelude::*;
use vstd::string::*;

verus! {

/// The character that writes the digit `d` in base ten.
pub open spec fn digit_char(d: nat) -> char
    recommends
        d < 10,
{
    if d == 0 {
        '0'
    } else if d == 1 {
        '1'
    } else if d == 2 {
        '2'
    } else if d == 3 {
        '3'
    } else if d == 4 {
        '4'
    } else if d == 5 {
        '5'
    } else if d == 6 {
        '6'
    } else if d == 7 {
        '7'
    } else if d == 8 {
        '8'
    } else {
        '9'
    }
}

/// The decimal numeral of `n`, most significant digit first, without
/// leading zeros.
pub open spec fn decimal(n: nat) -> Seq<char>
    decreases n,
{
    if n < 10 {
        seq![digit_char(n)]
    } else {
        decimal(n / 10).push(digit_char(n % 10))
    }
}

/// `count` many spaces.
pub open spec fn spaces(count: nat) -> Seq<char> {
    Seq::new(count, |i: int| ' ')
}

/// `text` right-aligned in a field of at least `width` characters: spaces
/// are put in front of a shorter text, a longer one is left as it is.
pub open spec fn right_aligned(text: Seq<char>, width: nat) -> Seq<char> {
    if text.len() < width {
        spaces((width - text.len()) as nat) + text
    } else {
        text
    }
}

/// The prefix of an emitted line: nothing when counts are not shown, else
/// the count right-aligned in four columns and one space.
pub open spec fn field_text(value: nat, show: bool) -> Seq<char> {
    if show {
        right_aligned(decimal(value), 4).push(' ')
    } else {
        Seq::empty()
    }
}

/// The numeral of `n` has one character below ten and one more for each
/// further factor of ten.
pub proof fn lemma_decimal_len(n: nat)
    ensures
        decimal(n).len() >= 1,
        n < 10 <==> decimal(n).len() == 1,
        10 <= n < 100 <==> decimal(n).len() == 2,
        100 <= n < 1000 <==> decimal(n).len() == 3,
        1000 <= n <==> decimal(n).len() >= 4,
    decreases n,
{
    if n >= 10 {
        lemma_decimal_len(n / 10);
    }
}

fn digit_str(d: usize) -> (r: &'static str)
    requires
        d < 10,
    ensures
        r@ == seq![digit_char(d as nat)],
{
    proof {
        reveal_strlit("0");
        reveal_strlit("1");
        reveal_strlit("2");
        reveal_strlit("3");
        reveal_strlit("4");
        reveal_strlit("5");
        reveal_strlit("6");
        reveal_strlit("7");
        reveal_strlit("8");
        reveal_strlit("9");
    }
    let r = if d == 0 {
        "0"
    } else if d == 1 {
        "1"
    } else if d == 2 {
        "2"
    } else if d == 3 {
        "3"
    } else if d == 4 {
        "4"
    } else if d == 5 {
        "5"
    } else if d == 6 {
        "6"
    } else if d == 7 {
        "7"
    } else if d == 8 {
        "8"
    } else {
        "9"
    };
    assert(r@ =~= seq![digit_char(d as nat)]);
    r
}

/// Writes `n` in base ten.
pub fn decimal_string(n: usize) -> (r: String)
    ensures
        r@ == decimal(n as nat),
    decreases n,
{
    if n < 10 {
        String::from_str(digit_str(n))
    } else {
        let mut s = decimal_string(n / 10);
        s.append(digit_str(n % 10));
        assert(s@ =~= decimal(n as nat));
        s
    }
}

/// The count field for a run of `value` lines.
pub fn format_field(value: usize, show: bool) -> (r: String)
    ensures
        r@ == field_text(value as nat, show),
{
    if show {
        proof {
            lemma_decimal_len(value as nat);
            reveal_strlit("   ");
            reveal_strlit("  ");
            reveal_strlit(" ");
            reveal_strlit("");
        }
        let pad = if value < 10 {
            "   "
        } else if value < 100 {
            "  "
        } else if value < 1000 {
            " "
        } else {
            ""
        };
        assert(pad@ + decimal(value as nat) =~= right_aligned(decimal(value as nat), 4));
        let mut s = String::from_str(pad);
        let digits = decimal_string(value);
        s.append(digits.as_str());
        s.append(" ");
        assert(s@ =~= field_text(value as nat, show));
        s
    } else {
        String::new()
    }
}

} // verus!
