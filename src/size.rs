//! Human-readable sizes: one decimal place and a binary unit, computed the
//! way `format!("{:.1}", bytes as f64 / unit as f64)` prints them.

use vstd::prelude::*;
use crate::text::string_of;

verus! {

pub const KB: u64 = 1024;

pub const MB: u64 = 1048576;

pub const GB: u64 = 1073741824;

/// 2 to the power `n`.
pub open spec fn two_to(n: nat) -> nat
    decreases n,
{
    if n == 0 {
        1
    } else {
        2 * two_to((n - 1) as nat)
    }
}

/// `x / p` rounded to the nearest integer, ties to even.
pub open spec fn div_round_even(x: nat, p: nat) -> nat
    recommends
        p > 0,
{
    let q = x / p;
    let r = x % p;
    if 2 * r > p || (2 * r == p && q % 2 == 1) {
        q + 1
    } else {
        q
    }
}

/// `b` rounded to the 53 significant bits of an `f64`, trying scales `2^s`
/// from `s` up.
pub open spec fn round_bits(b: nat, s: nat) -> nat
    decreases 11 - s,
{
    if s >= 11 || b < two_to(53) * two_to(s) {
        div_round_even(b, two_to(s)) * two_to(s)
    } else {
        round_bits(b, s + 1)
    }
}

/// The value of `b as f64` (round to nearest, ties to even).
pub open spec fn f64_value(b: nat) -> nat {
    if b < two_to(53) {
        b
    } else {
        round_bits(b, 1)
    }
}

pub open spec fn digit(d: nat) -> char {
    seq!['0', '1', '2', '3', '4', '5', '6', '7', '8', '9'][d as int]
}

/// The decimal digits of `n`.
pub open spec fn dec(n: nat) -> Seq<char>
    decreases n,
{
    if n < 10 {
        seq![digit(n)]
    } else {
        dec(n / 10) + seq![digit(n % 10)]
    }
}

/// `b / unit` with one decimal place, then `suffix`.
pub open spec fn tenths_text(b: nat, unit: nat, suffix: char) -> Seq<char> {
    let t = div_round_even(f64_value(b) * 10, unit);
    dec(t / 10) + seq!['.'] + dec(t % 10) + seq![suffix]
}

/// How `format_size` shows `b` bytes.
pub open spec fn size_text(b: nat) -> Seq<char> {
    if b >= GB {
        tenths_text(b, GB as nat, 'G')
    } else if b >= MB {
        tenths_text(b, MB as nat, 'M')
    } else if b >= KB {
        tenths_text(b, KB as nat, 'K')
    } else {
        dec(b) + seq!['B']
    }
}

fn push_dec(n: u128, out: &mut Vec<char>)
    ensures
        final(out)@ == old(out)@ + dec(n as nat),
    decreases n,
{
    if n >= 10 {
        push_dec(n / 10, out);
    }
    let d = (n % 10) as usize;
    let digits: [char; 10] = ['0', '1', '2', '3', '4', '5', '6', '7', '8', '9'];
    assert(digits@ =~= seq!['0', '1', '2', '3', '4', '5', '6', '7', '8', '9']);
    out.push(digits[d]);
    proof {
        if n >= 10 {
            assert(final(out)@ =~= old(out)@ + dec(n as nat));
        } else {
            assert(final(out)@ =~= old(out)@ + dec(n as nat));
        }
    }
}

proof fn lemma_two_to_53()
    ensures
        two_to(53) == 0x20000000000000,
{
    reveal_with_fuel(two_to, 54);
}

fn round_half_even(x: u128, p: u128) -> (r: u128)
    requires
        0 < p <= 0x1_0000_0000_0000_0000,
        x < 0x1000_0000_0000_0000_0000,
    ensures
        r == div_round_even(x as nat, p as nat),
        r <= x / p + 1,
{
    let q = x / p;
    let rem = x % p;
    if 2 * rem > p || (2 * rem == p && q % 2 == 1) {
        q + 1
    } else {
        q
    }
}

fn f64_value_exec(b: u64) -> (r: u128)
    ensures
        r == f64_value(b as nat),
        r <= 0x1_0000_0000_0000_0800,
{
    proof {
        lemma_two_to_53();
    }
    if b < 0x20000000000000 {
        return b as u128;
    }
    let mut s: u32 = 1;
    let mut p: u128 = 2;
    assert(two_to(1) == 2) by {
        reveal_with_fuel(two_to, 2);
    }
    while s < 11 && (b as u128) >= 0x20000000000000 * p
        invariant
            1 <= s <= 11,
            p == two_to(s as nat),
            2 <= p <= 2048,
            two_to(53) == 0x20000000000000,
            b >= 0x20000000000000,
            round_bits(b as nat, 1) == round_bits(b as nat, s as nat),
        decreases 11 - s,
    {
        assert(two_to((s + 1) as nat) == 2 * two_to(s as nat));
        proof {
            if s == 10 {
                assert(p == 1024) by {
                    reveal_with_fuel(two_to, 11);
                }
            }
        }
        assert(p <= 1024) by {
            if s < 10 {
                lemma_two_to_mono(s as nat, 10);
                reveal_with_fuel(two_to, 11);
            } else {
                reveal_with_fuel(two_to, 11);
            }
        }
        s = s + 1;
        p = p * 2;
    }
    let q = round_half_even(b as u128, p);
    proof {
        assert(q <= b as u128 / p + 1);
        assert((b as u128 / p) * p <= b as u128) by (nonlinear_arith)
            requires
                p > 0,
        ;
        assert(q * p <= b as u128 + p) by (nonlinear_arith)
            requires
                q <= b as u128 / p + 1,
                (b as u128 / p) * p <= b as u128,
                p > 0,
        ;
    }
    q * p
}

proof fn lemma_two_to_mono(a: nat, b: nat)
    requires
        a <= b,
    ensures
        two_to(a) <= two_to(b),
    decreases b,
{
    if a < b {
        lemma_two_to_mono(a, (b - 1) as nat);
    }
}

fn tenths_string(b: u64, unit: u64, suffix: char) -> (r: Vec<char>)
    requires
        unit > 0,
    ensures
        r@ == tenths_text(b as nat, unit as nat, suffix),
{
    let f = f64_value_exec(b);
    let t = round_half_even(f * 10, unit as u128);
    let mut out: Vec<char> = Vec::new();
    push_dec(t / 10, &mut out);
    out.push('.');
    push_dec(t % 10, &mut out);
    out.push(suffix);
    assert(out@ =~= tenths_text(b as nat, unit as nat, suffix));
    out
}

/// A size in bytes for people: `B` below 1 KiB, else one decimal place
/// of `K`, `M` or `G` (binary units).
pub fn format_size(bytes: u64) -> (r: String)
    ensures
        r@ == size_text(bytes as nat),
{
    let v = if bytes >= GB {
        tenths_string(bytes, GB, 'G')
    } else if bytes >= MB {
        tenths_string(bytes, MB, 'M')
    } else if bytes >= KB {
        tenths_string(bytes, KB, 'K')
    } else {
        let mut out: Vec<char> = Vec::new();
        push_dec(bytes as u128, &mut out);
        out.push('B');
        assert(out@ =~= dec(bytes as nat) + seq!['B']);
        out
    };
    string_of(v.as_slice())
}

} // verus!
