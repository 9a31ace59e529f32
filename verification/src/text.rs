//! Decimal and hexadecimal numerals, for the loader's messages.

use vstd::prelude::*;

verus! {

/// The digit character of `d` (0-9, then lower-case a-f).
pub open spec fn digit_char(d: nat) -> char {
    if d < 10 {
        ((48 + d) as u32) as char
    } else {
        ((97 + d - 10) as u32) as char
    }
}

/// The numeral of `n` in base `base`, without leading zeros ("0" for zero).
pub open spec fn numeral(n: nat, base: nat) -> Seq<char>
    decreases n,
{
    if base < 2 || n < base {
        seq![digit_char(n)]
    } else {
        proof {
            assert(n / base < n) by (nonlinear_arith)
                requires
                    base >= 2,
                    n >= base,
            ;
        }
        numeral(n / base, base) + seq![digit_char(n % base)]
    }
}

/// `s` padded on the left with `0` to at least `width` characters.
pub open spec fn zero_padded(s: Seq<char>, width: nat) -> Seq<char> {
    if s.len() < width {
        Seq::new((width - s.len()) as nat, |i: int| '0') + s
    } else {
        s
    }
}

/// The decimal numeral of `n`.
pub open spec fn dec(n: nat) -> Seq<char> {
    numeral(n, 10)
}

/// The lower-case hexadecimal numeral of `n`, padded with zeros to `width`.
pub open spec fn hex(n: nat, width: nat) -> Seq<char> {
    zero_padded(numeral(n, 16), width)
}

/// The one-character string of the digit `d`.
fn digit_str(d: u64) -> (s: &'static str)
    requires
        d < 16,
    ensures
        s@ == seq![digit_char(d as nat)],
{
    proof {
        reveal_strlit("0");
        reveal_strlit("1");
        reveal_strlit("2");
        reveal_strlit("3");
        reveal_strlit("4");
        reveal_strlit("5");
        reveal_strlit("6");
        reveal_strlit("7");
        reveal_strlit("8");
        reveal_strlit("9");
        reveal_strlit("a");
        reveal_strlit("b");
        reveal_strlit("c");
        reveal_strlit("d");
        reveal_strlit("e");
        reveal_strlit("f");
    }
    let s = if d == 0 {
        "0"
    } else if d == 1 {
        "1"
    } else if d == 2 {
        "2"
    } else if d == 3 {
        "3"
    } else if d == 4 {
        "4"
    } else if d == 5 {
        "5"
    } else if d == 6 {
        "6"
    } else if d == 7 {
        "7"
    } else if d == 8 {
        "8"
    } else if d == 9 {
        "9"
    } else if d == 10 {
        "a"
    } else if d == 11 {
        "b"
    } else if d == 12 {
        "c"
    } else if d == 13 {
        "d"
    } else if d == 14 {
        "e"
    } else {
        "f"
    };
    assert(s@ =~= seq![digit_char(d as nat)]);
    s
}

/// The numeral of `n` in base `base` (10 or 16).
pub fn numeral_string(n: u64, base: u64) -> (s: String)
    requires
        base == 10 || base == 16,
    ensures
        s@ == numeral(n as nat, base as nat),
{
    let mut x = n;
    let mut suffix = String::new();
    loop
        invariant
            base == 10 || base == 16,
            numeral(n as nat, base as nat) == numeral(x as nat, base as nat) + suffix@,
        decreases x,
    {
        let d = digit_str(x % base);
        let next = String::from_str(d).concat(suffix.as_str());
        if x < base {
            assert(x % base == x);
            assert(next@ =~= numeral(n as nat, base as nat));
            return next;
        }
        proof {
            assert(numeral(x as nat, base as nat) == numeral((x / base) as nat, base as nat) + seq![digit_char((x % base) as nat)]);
            assert(numeral(n as nat, base as nat) =~= numeral((x / base) as nat, base as nat) + next@);
        }
        suffix = next;
        x = x / base;
    }
}

/// The decimal numeral of `n`.
pub fn dec_string(n: u64) -> (s: String)
    ensures
        s@ == dec(n as nat),
{
    numeral_string(n, 10)
}

/// The lower-case hexadecimal numeral of `n`, padded with zeros to `width`.
pub fn hex_string(n: u64, width: usize) -> (s: String)
    ensures
        s@ == hex(n as nat, width as nat),
{
    let digits = numeral_string(n, 16);
    let len = digits.as_str().unicode_len();
    if len >= width {
        return digits;
    }
    let mut pad = String::new();
    let mut i: usize = 0;
    proof {
        reveal_strlit("0");
    }
    while i < width - len
        invariant
            i <= width - len,
            len == digits@.len(),
            len < width,
            pad@ == Seq::new(i as nat, |k: int| '0'),
        decreases width - len - i,
    {
        proof {
            reveal_strlit("0");
        }
        pad.append("0");
        i = i + 1;
        assert(pad@ =~= Seq::new(i as nat, |k: int| '0'));
    }
    let r = pad.concat(digits.as_str());
    assert(r@ =~= hex(n as nat, width as nat));
    r
}

} // verus!
