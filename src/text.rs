//! Decimal rendering of integers and simple string assembly.
use vstd::prelude::*;
use vstd::string::*;

verus! {

/// The character of one decimal digit.
pub open spec fn digit_char(d: nat) -> char {
    if d == 0 { '0' }
    else if d == 1 { '1' }
    else if d == 2 { '2' }
    else if d == 3 { '3' }
    else if d == 4 { '4' }
    else if d == 5 { '5' }
    else if d == 6 { '6' }
    else if d == 7 { '7' }
    else if d == 8 { '8' }
    else { '9' }
}

/// The decimal digits of `n`, most significant first, without leading zeros.
pub open spec fn decimal(n: nat) -> Seq<char>
    decreases n,
{
    if n < 10 {
        seq![digit_char(n)]
    } else {
        decimal(n / 10) + seq![digit_char(n % 10)]
    }
}

/// `s` preceded by as many `'0'` as needed to reach `width` characters.
pub open spec fn zero_padded(s: Seq<char>, width: nat) -> Seq<char> {
    if s.len() >= width {
        s
    } else {
        Seq::new((width - s.len()) as nat, |i: int| '0') + s
    }
}

/// An integer written in decimal, zero-padded to `width` characters; a
/// negative number keeps its sign in front and the sign counts in the width.
pub open spec fn padded_int(v: int, width: nat) -> Seq<char> {
    if v >= 0 {
        zero_padded(decimal(v as nat), width)
    } else {
        seq!['-'] + zero_padded(decimal((-v) as nat), if width >= 1 { (width - 1) as nat } else { 0 })
    }
}

fn digit_str(d: u128) -> (r: &'static str)
    requires
        d < 10,
    ensures
        r@ == seq![digit_char(d as nat)],
{
    proof {
        reveal_strlit("0");
        reveal_strlit("1");
        reveal_strlit("2");
        reveal_strlit("3");
        reveal_strlit("4");
        reveal_strlit("5");
        reveal_strlit("6");
        reveal_strlit("7");
        reveal_strlit("8");
        reveal_strlit("9");
    }
    if d == 0 { "0" }
    else if d == 1 { "1" }
    else if d == 2 { "2" }
    else if d == 3 { "3" }
    else if d == 4 { "4" }
    else if d == 5 { "5" }
    else if d == 6 { "6" }
    else if d == 7 { "7" }
    else if d == 8 { "8" }
    else { "9" }
}

/// Appends the decimal digits of `n` to `s`.
pub fn push_decimal(s: &mut String, n: u128)
    ensures
        final(s)@ == old(s)@ + decimal(n as nat),
    decreases n,
{
    if n < 10 {
        s.append(digit_str(n));
    } else {
        push_decimal(s, n / 10);
        s.append(digit_str(n % 10));
        assert(final(s)@ =~= old(s)@ + decimal(n as nat));
    }
}

/// Appends `v` in decimal, zero-padded to `width` characters.
pub fn push_padded_int(s: &mut String, v: i64, width: usize)
    ensures
        final(s)@ == old(s)@ + padded_int(v as int, width as nat),
{
    let magnitude: u128 = if v >= 0 { v as u128 } else { (-(v as i128)) as u128 };
    let field: usize = if v >= 0 { width } else if width >= 1 { width - 1 } else { 0 };
    if v < 0 {
        proof { reveal_strlit("-"); }
        s.append("-");
    }
    let ghost before = s@;
    proof { reveal_strlit(""); }
    let mut digits = String::from_str("");
    push_decimal(&mut digits, magnitude);
    let len: usize = digits.unicode_len();
    let mut i: usize = len;
    proof { reveal_strlit("0"); }
    while i < field
        invariant
            len <= i,
            i <= field || i == len,
            len == decimal(magnitude as nat).len(),
            digits@ == decimal(magnitude as nat),
            s@ == before + Seq::new((i - len) as nat, |k: int| '0'),
        decreases field - i,
    {
        proof { reveal_strlit("0"); }
        s.append("0");
        i = i + 1;
        assert(s@ =~= before + Seq::new((i - len) as nat, |k: int| '0'));
    }
    s.append(digits.as_str());
    assert(s@ =~= old(s)@ + padded_int(v as int, width as nat));
}

/// `v` in decimal, zero-padded to `width` characters (as `{:0width$}` prints it).
pub fn padded_int_string(v: i64, width: usize) -> (r: String)
    ensures
        r@ == padded_int(v as int, width as nat),
{
    proof { reveal_strlit(""); }
    let mut s = String::from_str("");
    push_padded_int(&mut s, v, width);
    assert(s@ =~= padded_int(v as int, width as nat));
    s
}

} // verus!
