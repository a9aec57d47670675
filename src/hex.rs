//! Hexadecimal literals for bit values.
use vstd::prelude::*;
use crate::text::extend_chars;

verus! {

/// Two to the power `n`.
pub open spec fn pow2(n: nat) -> nat
    decreases n,
{
    if n == 0 {
        1
    } else {
        2 * pow2((n - 1) as nat)
    }
}

/// The lower-case hexadecimal digit for `d`.
pub open spec fn hex_digit(d: int) -> char {
    if d == 0 {
        '0'
    } else if d == 1 {
        '1'
    } else if d == 2 {
        '2'
    } else if d == 3 {
        '3'
    } else if d == 4 {
        '4'
    } else if d == 5 {
        '5'
    } else if d == 6 {
        '6'
    } else if d == 7 {
        '7'
    } else if d == 8 {
        '8'
    } else if d == 9 {
        '9'
    } else if d == 10 {
        'a'
    } else if d == 11 {
        'b'
    } else if d == 12 {
        'c'
    } else if d == 13 {
        'd'
    } else if d == 14 {
        'e'
    } else {
        'f'
    }
}

/// The hexadecimal digits of `v`, most significant first.
pub open spec fn hex_digits(v: nat) -> Seq<char>
    decreases v,
{
    if v < 16 {
        seq![hex_digit(v as int)]
    } else {
        hex_digits(v / 16).push(hex_digit((v % 16) as int))
    }
}

/// `s` with zeros put in front up to `w` characters.
pub open spec fn zero_pad(s: Seq<char>, w: nat) -> Seq<char> {
    if s.len() < w {
        Seq::new((w - s.len()) as nat, |i: int| '0') + s
    } else {
        s
    }
}

/// `v` as an `0x`-prefixed literal of at least eight hexadecimal digits.
pub open spec fn hex_literal(v: nat) -> Seq<char> {
    "0x"@ + zero_pad(hex_digits(v), 8)
}

fn hex_digit_exec(d: u64) -> (c: char)
    requires
        d < 16,
    ensures
        c == hex_digit(d as int),
{
    match d {
        0 => '0',
        1 => '1',
        2 => '2',
        3 => '3',
        4 => '4',
        5 => '5',
        6 => '6',
        7 => '7',
        8 => '8',
        9 => '9',
        10 => 'a',
        11 => 'b',
        12 => 'c',
        13 => 'd',
        14 => 'e',
        _ => 'f',
    }
}

fn hex_digits_exec(v: u64) -> (r: Vec<char>)
    ensures
        r@ == hex_digits(v as nat),
    decreases v,
{
    if v < 16 {
        let mut r = Vec::new();
        r.push(hex_digit_exec(v));
        assert(r@ =~= seq![hex_digit(v as int)]);
        r
    } else {
        let mut r = hex_digits_exec(v / 16);
        r.push(hex_digit_exec(v % 16));
        r
    }
}

/// `v` as an `0x`-prefixed literal of at least eight hexadecimal digits.
pub fn hex_literal_exec(v: u64) -> (r: Vec<char>)
    ensures
        r@ == hex_literal(v as nat),
{
    let d = hex_digits_exec(v);
    let mut r = crate::text::chars_of("0x");
    let mut pad: Vec<char> = Vec::new();
    let mut k: usize = d.len();
    while k < 8
        invariant
            d@.len() <= k <= 8 || (k == d@.len() && k >= 8),
            pad@ == Seq::new((k - d@.len()) as nat, |i: int| '0'),
        decreases 8 - k,
    {
        pad.push('0');
        k += 1;
        assert(pad@ =~= Seq::new((k - d@.len()) as nat, |i: int| '0'));
    }
    extend_chars(&mut r, pad.as_slice());
    extend_chars(&mut r, d.as_slice());
    proof {
        if d@.len() >= 8 {
            assert(pad@ =~= Seq::<char>::empty());
            assert(pad@ + d@ =~= d@);
        }
    }
    assert(r@ =~= "0x"@ + (pad@ + d@));
    r
}

/// The value of bit `b`.
pub fn bit_value(b: u32) -> (r: u64)
    requires
        b < 64,
    ensures
        r as nat == pow2(b as nat),
{
    let mut v: u64 = 1;
    let mut i: u32 = 0;
    assert(1u64 <= 0x8000_0000_0000_0000u64 >> 63u64) by (bit_vector);
    while i < b
        invariant
            i <= b < 64,
            v as nat == pow2(i as nat),
            v <= 0x8000_0000_0000_0000u64 >> (63 - i) as u64,
        decreases b - i,
    {
        assert(v * 2 <= 0x8000_0000_0000_0000u64 >> (63 - (i + 1)) as u64) by (bit_vector)
            requires
                i < 63,
                v <= 0x8000_0000_0000_0000u64 >> (63 - i) as u64,
        ;
        v = v * 2;
        i += 1;
    }
    v
}

} // verus!
