//! Lowercase hexadecimal encoding and decoding of fixed-width identifier
//! fields, with proofs that the two directions invert each other.

use vstd::prelude::*;

verus! {

/// A lowercase hexadecimal digit, the only digits the wire format admits.
pub open spec fn is_hex_digit(c: char) -> bool {
    (48 <= c as u32 && c as u32 <= 57) || (97 <= c as u32 && c as u32 <= 102)
}

/// Numeric value of a lowercase hexadecimal digit.
pub open spec fn hex_digit_val(c: char) -> nat {
    if 48 <= c as u32 && c as u32 <= 57 {
        (c as u32 - 48) as nat
    } else if 97 <= c as u32 && c as u32 <= 102 {
        (c as u32 - 87) as nat
    } else {
        0
    }
}

/// Every character of `s` is a lowercase hexadecimal digit.
pub open spec fn all_hex(s: Seq<char>) -> bool {
    forall|i: int| 0 <= i < s.len() ==> is_hex_digit(#[trigger] s[i])
}

/// The number a big-endian sequence of hexadecimal digits denotes.
pub open spec fn hex_val(s: Seq<char>) -> nat
    decreases s.len(),
{
    if s.len() == 0 {
        0
    } else {
        hex_val(s.drop_last()) * 16 + hex_digit_val(s.last())
    }
}

/// The lowercase digit character for a value below sixteen.
pub open spec fn hex_char_of(d: nat) -> char {
    if d == 0 { '0' } else if d == 1 { '1' } else if d == 2 { '2' } else if d == 3 { '3' }
    else if d == 4 { '4' } else if d == 5 { '5' } else if d == 6 { '6' } else if d == 7 { '7' }
    else if d == 8 { '8' } else if d == 9 { '9' } else if d == 10 { 'a' } else if d == 11 { 'b' }
    else if d == 12 { 'c' } else if d == 13 { 'd' } else if d == 14 { 'e' } else { 'f' }
}

/// 16 to the power `n`.
pub open spec fn pow16(n: nat) -> nat
    decreases n,
{
    if n == 0 {
        1
    } else {
        16 * pow16((n - 1) as nat)
    }
}

/// The `n`-digit big-endian lowercase hexadecimal rendering of `v`.
pub open spec fn hex_str_of(v: nat, n: nat) -> Seq<char>
    decreases n,
{
    if n == 0 {
        Seq::empty()
    } else {
        hex_str_of(v / 16, (n - 1) as nat).push(hex_char_of(v % 16))
    }
}

pub proof fn lemma_pow16_values()
    ensures
        pow16(2) == 0x100,
        pow16(16) == 0x10000000000000000,
        pow16(32) == 0x100000000000000000000000000000000,
{
    assert(pow16(0) == 1) by { reveal_with_fuel(pow16, 1); }
    assert(pow16(2) == 0x100) by { reveal_with_fuel(pow16, 3); }
    assert(pow16(16) == 0x10000000000000000) by { reveal_with_fuel(pow16, 17); }
    assert(pow16(32) == 0x100000000000000000000000000000000) by {
        reveal_with_fuel(pow16, 33);
    }
}

pub proof fn lemma_pow16_increases(m: nat, n: nat)
    requires
        m <= n,
    ensures
        pow16(m) <= pow16(n),
    decreases n,
{
    if m < n && n > 0 {
        lemma_pow16_increases(m, (n - 1) as nat);
        assert(pow16(n) == 16 * pow16((n - 1) as nat));
    }
}

/// An `n`-digit rendering denotes its value back: encoding then decoding is
/// the identity on values below `16^n`.
pub proof fn lemma_hex_str_of_val(v: nat, n: nat)
    requires
        v < pow16(n),
    ensures
        hex_str_of(v, n).len() == n,
        all_hex(hex_str_of(v, n)),
        hex_val(hex_str_of(v, n)) == v,
    decreases n,
{
    if n == 0 {
        assert(hex_str_of(v, n) =~= Seq::<char>::empty());
    } else {
        let m = (n - 1) as nat;
        assert(v < 16 * pow16(m));
        vstd::arithmetic::div_mod::lemma_fundamental_div_mod(v as int, 16);
        assert(v == 16 * (v / 16) + v % 16);
        if v / 16 >= pow16(m) {
            vstd::arithmetic::mul::lemma_mul_inequality(
                pow16(m) as int,
                (v / 16) as int,
                16,
            );
            assert(16 * (v / 16) >= 16 * pow16(m));
            assert(false);
        }
        lemma_hex_str_of_val(v / 16, m);
        let inner = hex_str_of(v / 16, m);
        let s = hex_str_of(v, n);
        assert(s == inner.push(hex_char_of(v % 16)));
        assert(s.drop_last() =~= inner);
        assert(s.last() == hex_char_of(v % 16));
        assert(is_hex_digit(hex_char_of(v % 16)));
        assert(hex_digit_val(hex_char_of(v % 16)) == v % 16);
        assert(forall|i: int| 0 <= i < s.len() - 1 ==> s[i] == inner[i]);
        assert(hex_val(s) == hex_val(inner) * 16 + hex_digit_val(s.last()));
    }
}

/// A sequence of hexadecimal digits denotes a value below `16^len`.
pub proof fn lemma_hex_val_bound(s: Seq<char>)
    requires
        all_hex(s),
    ensures
        hex_val(s) < pow16(s.len()),
    decreases s.len(),
{
    if s.len() > 0 {
        assert(all_hex(s.drop_last()));
        lemma_hex_val_bound(s.drop_last());
        assert(hex_digit_val(s.last()) < 16);
        assert(hex_val(s.drop_last()) <= pow16((s.len() - 1) as nat) - 1);
        vstd::arithmetic::mul::lemma_mul_inequality(
            hex_val(s.drop_last()) as int,
            pow16((s.len() - 1) as nat) as int - 1,
            16,
        );
    }
}

/// Digit value of a character, `None` where it is not a lowercase
/// hexadecimal digit.
pub fn hex_digit_value(c: char) -> (r: Option<u8>)
    ensures
        match r {
            Some(d) => is_hex_digit(c) && d < 16 && d as nat == hex_digit_val(c),
            None => !is_hex_digit(c),
        },
{
    let u = c as u32;
    if 48 <= u && u <= 57 {
        Some((u - 48) as u8)
    } else if 97 <= u && u <= 102 {
        Some((u - 87) as u8)
    } else {
        None
    }
}

/// The digit character for a value below sixteen.
pub fn hex_char(d: u8) -> (c: char)
    requires
        d < 16,
    ensures
        c == hex_char_of(d as nat),
        is_hex_digit(c),
        hex_digit_val(c) == d as nat,
{
    if d == 0 { '0' } else if d == 1 { '1' } else if d == 2 { '2' } else if d == 3 { '3' }
    else if d == 4 { '4' } else if d == 5 { '5' } else if d == 6 { '6' } else if d == 7 { '7' }
    else if d == 8 { '8' } else if d == 9 { '9' } else if d == 10 { 'a' } else if d == 11 { 'b' }
    else if d == 12 { 'c' } else if d == 13 { 'd' } else if d == 14 { 'e' } else { 'f' }
}

/// Relies on `String::push`: appends the given character to the end of the
/// string.
#[verifier::external_body]
pub fn push_char(s: &mut String, c: char)
    ensures
        final(s)@ == old(s)@.push(c),
{
    s.push(c);
}

/// Renders `v` as exactly `n` lowercase hexadecimal digits, big-endian.
pub fn encode_hex(v: u128, n: usize) -> (s: String)
    requires
        (v as nat) < pow16(n as nat),
    ensures
        s@ == hex_str_of(v as nat, n as nat),
        s@.len() == n,
    decreases n,
{
    proof {
        lemma_hex_str_of_val(v as nat, n as nat);
    }
    if n == 0 {
        let s = String::new();
        assert(s@ =~= hex_str_of(v as nat, 0));
        s
    } else {
        proof {
            vstd::arithmetic::div_mod::lemma_fundamental_div_mod(v as int, 16);
            if (v / 16) as nat >= pow16((n - 1) as nat) {
                vstd::arithmetic::mul::lemma_mul_inequality(
                    pow16((n - 1) as nat) as int,
                    (v / 16) as int,
                    16,
                );
                assert(false);
            }
        }
        let mut s = encode_hex(v / 16, n - 1);
        let d = (v % 16) as u8;
        push_char(&mut s, hex_char(d));
        s
    }
}

/// Decodes the digits of `s` between `from` and `to` as a big-endian
/// lowercase hexadecimal number, `None` on any other character.
pub fn parse_hex(s: &str, from: usize, to: usize) -> (r: Option<u128>)
    requires
        from <= to <= s@.len(),
        to - from <= 32,
    ensures
        match r {
            Some(v) => all_hex(s@.subrange(from as int, to as int)) && v as nat == hex_val(
                s@.subrange(from as int, to as int),
            ),
            None => !all_hex(s@.subrange(from as int, to as int)),
        },
{
    let mut acc: u128 = 0;
    let mut i: usize = from;
    proof {
        assert(s@.subrange(from as int, from as int) =~= Seq::<char>::empty());
        lemma_pow16_values();
    }
    while i < to
        invariant
            from <= i <= to <= s@.len(),
            to - from <= 32,
            all_hex(s@.subrange(from as int, i as int)),
            acc as nat == hex_val(s@.subrange(from as int, i as int)),
            (acc as nat) < pow16((i - from) as nat),
            pow16(32) == 0x100000000000000000000000000000000,
        decreases to - i,
    {
        let c = s.get_char(i);
        match hex_digit_value(c) {
            Some(d) => {
                proof {
                    lemma_pow16_increases((i - from) as nat, 31);
                    assert(pow16(31) * 16 == pow16(32)) by {
                        reveal_with_fuel(pow16, 33);
                    }
                    vstd::arithmetic::mul::lemma_mul_inequality(
                        acc as int,
                        pow16(31) as int - 1,
                        16,
                    );
                    let pre = s@.subrange(from as int, i as int);
                    let post = s@.subrange(from as int, i + 1);
                    assert(post.drop_last() =~= pre);
                    assert(post.last() == s@[i as int]);
                }
                acc = acc * 16 + (d as u128);
            },
            None => {
                proof {
                    let whole = s@.subrange(from as int, to as int);
                    assert(whole[i - from] == s@[i as int]);
                }
                return None;
            },
        }
        i = i + 1;
    }
    Some(acc)
}

} // verus!
