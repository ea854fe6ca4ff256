//! Lower-case hexadecimal and decimal renderings of integers, and the
//! proofs that fixed-width and minimal renderings tell numbers apart.
use vstd::prelude::*;

verus! {

/// The lower-case hexadecimal digit for `d`, where `0 <= d < 16`.
pub open spec fn hex_digit(d: int) -> char {
    if d == 0 {
        '0'
    } else if d == 1 {
        '1'
    } else if d == 2 {
        '2'
    } else if d == 3 {
        '3'
    } else if d == 4 {
        '4'
    } else if d == 5 {
        '5'
    } else if d == 6 {
        '6'
    } else if d == 7 {
        '7'
    } else if d == 8 {
        '8'
    } else if d == 9 {
        '9'
    } else if d == 10 {
        'a'
    } else if d == 11 {
        'b'
    } else if d == 12 {
        'c'
    } else if d == 13 {
        'd'
    } else if d == 14 {
        'e'
    } else {
        'f'
    }
}

/// `16` to the power `n`.
pub open spec fn pow16(n: nat) -> nat
    decreases n,
{
    if n == 0 {
        1
    } else {
        16 * pow16((n - 1) as nat)
    }
}

/// The `width` lowest hexadecimal digits of `v`, most significant first.
pub open spec fn hex_fixed(v: nat, width: nat) -> Seq<char>
    decreases width,
{
    if width == 0 {
        Seq::empty()
    } else {
        hex_fixed(v / 16, (width - 1) as nat).push(hex_digit((v % 16) as int))
    }
}

/// The hexadecimal digits of `v` without leading zeros; one digit for zero.
pub open spec fn hex_minimal(v: nat) -> Seq<char>
    decreases v,
{
    if v < 16 {
        seq![hex_digit(v as int)]
    } else {
        hex_minimal(v / 16).push(hex_digit((v % 16) as int))
    }
}

/// The decimal digit for `d`, where `0 <= d < 10`.
pub open spec fn decimal_digit(d: int) -> char {
    hex_digit(d)
}

/// The decimal digits of `v` without leading zeros; one digit for zero.
pub open spec fn decimal_unsigned(v: nat) -> Seq<char>
    decreases v,
{
    if v < 10 {
        seq![decimal_digit(v as int)]
    } else {
        decimal_unsigned(v / 10).push(decimal_digit((v % 10) as int))
    }
}

/// The decimal rendering of `i`, with a leading minus sign when negative.
pub open spec fn decimal(i: int) -> Seq<char> {
    if i < 0 {
        seq!['-'] + decimal_unsigned((-i) as nat)
    } else {
        decimal_unsigned(i as nat)
    }
}

/// Two digits with the same character are equal.
pub proof fn lemma_hex_digit_injective(a: int, b: int)
    requires
        0 <= a < 16,
        0 <= b < 16,
        hex_digit(a) == hex_digit(b),
    ensures
        a == b,
{
}

/// A fixed-width rendering has its width.
pub proof fn lemma_hex_fixed_len(v: nat, width: nat)
    ensures
        hex_fixed(v, width).len() == width,
    decreases width,
{
    if width > 0 {
        lemma_hex_fixed_len(v / 16, (width - 1) as nat);
    }
}

/// A minimal rendering has a digit, and two from 16 on.
pub proof fn lemma_hex_minimal_len(v: nat)
    ensures
        hex_minimal(v).len() >= 1,
        v >= 16 ==> hex_minimal(v).len() >= 2,
    decreases v,
{
    if v >= 16 {
        lemma_hex_minimal_len(v / 16);
    }
}

/// Two numbers below `16^width` with the same fixed-width rendering are equal.
pub proof fn lemma_hex_fixed_injective(a: nat, b: nat, width: nat)
    requires
        a < pow16(width),
        b < pow16(width),
        hex_fixed(a, width) == hex_fixed(b, width),
    ensures
        a == b,
    decreases width,
{
    if width > 0 {
        let sa = hex_fixed(a / 16, (width - 1) as nat);
        let sb = hex_fixed(b / 16, (width - 1) as nat);
        let da = hex_digit((a % 16) as int);
        let db = hex_digit((b % 16) as int);
        assert(sa.push(da).last() == sb.push(db).last());
        assert(sa.push(da).drop_last() == sa);
        assert(sb.push(db).drop_last() == sb);
        lemma_hex_digit_injective((a % 16) as int, (b % 16) as int);
        lemma_hex_fixed_injective(a / 16, b / 16, (width - 1) as nat);
    }
}

/// Two numbers with the same minimal rendering are equal.
pub proof fn lemma_hex_minimal_injective(a: nat, b: nat)
    requires
        hex_minimal(a) == hex_minimal(b),
    ensures
        a == b,
    decreases a,
{
    lemma_hex_minimal_len(a);
    lemma_hex_minimal_len(b);
    if a < 16 && b < 16 {
        assert(hex_minimal(a)[0] == hex_digit(a as int));
        assert(hex_minimal(b)[0] == hex_digit(b as int));
        lemma_hex_digit_injective(a as int, b as int);
    } else if a < 16 {
        assert(hex_minimal(a).len() == 1);
    } else if b < 16 {
        assert(hex_minimal(b).len() == 1);
    } else {
        let sa = hex_minimal(a / 16);
        let sb = hex_minimal(b / 16);
        let da = hex_digit((a % 16) as int);
        let db = hex_digit((b % 16) as int);
        assert(sa.push(da).last() == sb.push(db).last());
        assert(sa.push(da).drop_last() == sa);
        assert(sb.push(db).drop_last() == sb);
        lemma_hex_digit_injective((a % 16) as int, (b % 16) as int);
        lemma_hex_minimal_injective(a / 16, b / 16);
    }
}

/// Executable form of [`hex_digit`].
pub fn hex_digit_char(d: u64) -> (c: char)
    requires
        d < 16,
    ensures
        c == hex_digit(d as int),
{
    if d == 0 {
        '0'
    } else if d == 1 {
        '1'
    } else if d == 2 {
        '2'
    } else if d == 3 {
        '3'
    } else if d == 4 {
        '4'
    } else if d == 5 {
        '5'
    } else if d == 6 {
        '6'
    } else if d == 7 {
        '7'
    } else if d == 8 {
        '8'
    } else if d == 9 {
        '9'
    } else if d == 10 {
        'a'
    } else if d == 11 {
        'b'
    } else if d == 12 {
        'c'
    } else if d == 13 {
        'd'
    } else if d == 14 {
        'e'
    } else {
        'f'
    }
}

/// Executable form of [`hex_fixed`].
pub fn hex_fixed_chars(v: u64, width: usize) -> (r: Vec<char>)
    ensures
        r@ == hex_fixed(v as nat, width as nat),
    decreases width,
{
    if width == 0 {
        Vec::new()
    } else {
        let mut r = hex_fixed_chars(v / 16, width - 1);
        r.push(hex_digit_char(v % 16));
        r
    }
}

/// Executable form of [`hex_minimal`].
pub fn hex_minimal_chars(v: u64) -> (r: Vec<char>)
    ensures
        r@ == hex_minimal(v as nat),
    decreases v,
{
    if v < 16 {
        let mut r: Vec<char> = Vec::new();
        r.push(hex_digit_char(v));
        r
    } else {
        let mut r = hex_minimal_chars(v / 16);
        r.push(hex_digit_char(v % 16));
        r
    }
}

/// Executable form of [`decimal_unsigned`].
pub fn decimal_unsigned_chars(v: u64) -> (r: Vec<char>)
    ensures
        r@ == decimal_unsigned(v as nat),
    decreases v,
{
    if v < 10 {
        let mut r: Vec<char> = Vec::new();
        r.push(hex_digit_char(v));
        r
    } else {
        let mut r = decimal_unsigned_chars(v / 10);
        r.push(hex_digit_char(v % 10));
        r
    }
}

/// Executable form of [`decimal`].
pub fn decimal_chars(i: i64) -> (r: Vec<char>)
    ensures
        r@ == decimal(i as int),
{
    if i < 0 {
        let magnitude: u64 = if i == i64::MIN {
            0x8000_0000_0000_0000u64
        } else {
            (-i) as u64
        };
        let mut r: Vec<char> = Vec::new();
        r.push('-');
        let digits = decimal_unsigned_chars(magnitude);
        crate::text::push_all(&mut r, &digits);
        r
    } else {
        decimal_unsigned_chars(i as u64)
    }
}

} // verus!
