//! Numbers written as text: decimal, and lowercase hexadecimal with a `0x`
//! prefix and optional zero padding.
use vstd::prelude::*;
use vstd::string::{StrSliceExecFns, StringExecFns};

verus! {

/// The digit character for `d` (0..=9 then a..=f).
pub open spec fn digit_char(d: int) -> char {
    if d < 10 {
        (48 + d) as char
    } else {
        (87 + d) as char
    }
}

/// The hexadecimal digits of `v`, most significant first, without leading zeros.
pub open spec fn hex_digits(v: nat) -> Seq<char>
    decreases v,
{
    if v < 16 {
        seq![digit_char(v as int)]
    } else {
        hex_digits(v / 16).push(digit_char((v % 16) as int))
    }
}

/// The decimal digits of `v`, most significant first, without leading zeros.
pub open spec fn dec_digits(v: nat) -> Seq<char>
    decreases v,
{
    if v < 10 {
        seq![digit_char(v as int)]
    } else {
        dec_digits(v / 10).push(digit_char((v % 10) as int))
    }
}

/// `s` with zeros in front up to `width` characters.
pub open spec fn zero_padded(s: Seq<char>, width: nat) -> Seq<char> {
    if s.len() < width {
        Seq::new((width - s.len()) as nat, |i: int| '0') + s
    } else {
        s
    }
}

/// `0x` followed by the hexadecimal digits of `v`, at least `width` of them.
pub open spec fn hex_text(v: nat, width: nat) -> Seq<char> {
    seq!['0', 'x'] + zero_padded(hex_digits(v), width)
}

/// A signed integer in decimal, with a minus sign when negative.
pub open spec fn int_text(v: int) -> Seq<char> {
    if v < 0 {
        seq!['-'] + dec_digits((-v) as nat)
    } else {
        dec_digits(v as nat)
    }
}

/// Appends `c` to `s` by `String::push`. The contract claims what std
/// documents of it: the characters of `s` afterwards are the old ones
/// followed by `c`.
#[verifier::external_body]
pub(crate) fn push_char(s: &mut String, c: char)
    ensures
        final(s)@ == old(s)@.push(c),
{
    s.push(c);
}

/// Appends `t` to `s`.
pub fn push_str(s: &mut String, t: &str)
    ensures
        final(s)@ == old(s)@ + t@,
{
    s.append(t);
}

/// The digit character for `d`.
fn digit(d: u8) -> (c: char)
    requires
        d < 16,
    ensures
        c == digit_char(d as int),
{
    if d < 10 {
        (48 + d) as char
    } else {
        (87 + d) as char
    }
}

/// Appends the hexadecimal digits of `v`.
fn push_hex_digits(s: &mut String, v: u64)
    ensures
        final(s)@ == old(s)@ + hex_digits(v as nat),
    decreases v,
{
    let ghost start = s@;
    if v >= 16 {
        push_hex_digits(s, v / 16);
    }
    push_char(s, digit((v % 16) as u8));
    proof {
        if v >= 16 {
            assert(s@ =~= start + hex_digits(v as nat));
        } else {
            assert(s@ =~= start + hex_digits(v as nat));
        }
    }
}

/// Appends the hexadecimal digits of `v`, zero-padded to at least `width`
/// digits, without a prefix (the `{:0Nx}` format).
pub fn push_hex_plain(s: &mut String, v: u64, width: usize)
    ensures
        final(s)@ == old(s)@ + zero_padded(hex_digits(v as nat), width as nat),
{
    let ghost start = s@;
    let mut digits = String::new();
    push_hex_digits(&mut digits, v);
    let n = digits.as_str().unicode_len();
    let mut i = n;
    while i < width
        invariant
            i == n || (n < i && i <= width),
            n == hex_digits(v as nat).len(),
            digits@ == hex_digits(v as nat),
            s@ == start + Seq::new((i - n) as nat, |k: int| '0'),
        decreases width - i,
    {
        push_char(s, '0');
        i = i + 1;
        assert(s@ =~= start + Seq::new((i - n) as nat, |k: int| '0'));
    }
    push_str(s, digits.as_str());
    proof {
        if n < width {
            assert(s@ =~= start + zero_padded(hex_digits(v as nat), width as nat));
        } else {
            assert(Seq::new((i - n) as nat, |k: int| '0') =~= Seq::<char>::empty());
            assert(s@ =~= start + zero_padded(hex_digits(v as nat), width as nat));
        }
    }
}

/// Appends `0x` and the hexadecimal digits of `v`, zero-padded to at least
/// `width` digits (the `{:#0Nx}` format with N = width + 2).
pub fn push_hex(s: &mut String, v: u64, width: usize)
    ensures
        final(s)@ == old(s)@ + hex_text(v as nat, width as nat),
{
    let ghost start = s@;
    push_char(s, '0');
    push_char(s, 'x');
    push_hex_plain(s, v, width);
    assert(s@ =~= start + hex_text(v as nat, width as nat));
}

/// Appends the decimal digits of `v`.
pub fn push_dec(s: &mut String, v: u64)
    ensures
        final(s)@ == old(s)@ + dec_digits(v as nat),
    decreases v,
{
    let ghost start = s@;
    if v >= 10 {
        push_dec(s, v / 10);
    }
    push_char(s, digit((v % 10) as u8));
    proof {
        assert(s@ =~= start + dec_digits(v as nat));
    }
}

/// Appends `v` in decimal, with a minus sign when negative.
pub fn push_int(s: &mut String, v: i64)
    ensures
        final(s)@ == old(s)@ + int_text(v as int),
{
    let ghost start = s@;
    if v < 0 {
        push_char(s, '-');
        let m: u64 = if v == i64::MIN {
            0x8000_0000_0000_0000
        } else {
            (-v) as u64
        };
        push_dec(s, m);
        assert(s@ =~= start + int_text(v as int));
    } else {
        push_dec(s, v as u64);
    }
}

/// Whether `a` and `b` hold the same characters.
pub fn same_text(a: &str, b: &str) -> (r: bool)
    ensures
        r == (a@ == b@),
{
    let n = a.unicode_len();
    if n != b.unicode_len() {
        return false;
    }
    let mut i: usize = 0;
    while i < n
        invariant
            n == a@.len(),
            n == b@.len(),
            i <= n,
            forall|k: int| 0 <= k < i ==> a@[k] == b@[k],
        decreases n - i,
    {
        if a.get_char(i) != b.get_char(i) {
            return false;
        }
        i = i + 1;
    }
    assert(a@ =~= b@);
    true
}

} // verus!
