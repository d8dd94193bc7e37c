use vstd::prelude::*;
use vstd::string::*;

use crate::text::dec_text;
use crate::text::push_decimal;
use crate::text::push_decimal_wide;
use crate::text::zero_pad;

verus! {

pub const KIB: u64 = 1024;
pub const MIB: u64 = 1048576;
pub const GIB: u64 = 1073741824;

/// Largest integer below which every integer is a double exactly.
pub const EXACT_LIMIT: u128 = 0x20_0000_0000_0000;

pub open spec fn pow2(k: nat) -> nat
    decreases k,
{
    if k == 0 {
        1
    } else {
        2 * pow2((k - 1) as nat)
    }
}

/// The power of two by which a double holding `n` spaces its values: the first
/// `2^j` for which `n / 2^j` fits the 53-bit significand.
pub open spec fn double_unit(n: nat, j: nat) -> nat
    decreases 11 - j,
{
    if j >= 11 || n / pow2(j) < EXACT_LIMIT {
        pow2(j)
    } else {
        double_unit(n, j + 1)
    }
}

/// The double nearest to `n`, ties to the even significand.
pub open spec fn double_of(n: nat) -> nat {
    let unit = double_unit(n, 0);
    if unit == 1 {
        n
    } else {
        let q = n / unit;
        let r = n % unit;
        let half = unit / 2;
        (if r > half || (r == half && q % 2 == 1) {
            q + 1
        } else {
            q
        }) * unit
    }
}

/// `num / den` in hundredths, rounded to nearest, ties to even.
pub open spec fn hundredths(num: nat, den: nat) -> nat {
    let q = (num * 100) / den;
    let r = (num * 100) % den;
    if 2 * r > den || (2 * r == den && q % 2 == 1) {
        q + 1
    } else {
        q
    }
}

/// A count of hundredths written with two decimal places.
pub open spec fn two_places(h: nat) -> Seq<char> {
    dec_text(h / 100) + "."@ + zero_pad(dec_text(h % 100), 2)
}

/// A byte count for display: whole bytes below 1 KiB, else kibibytes,
/// mebibytes or gibibytes with two decimal places.
pub open spec fn size_text(bytes: u64) -> Seq<char> {
    if bytes < KIB {
        dec_text(bytes as nat) + " B"@
    } else if bytes < MIB {
        two_places(hundredths(bytes as nat, KIB as nat)) + " KB"@
    } else if bytes < GIB {
        two_places(hundredths(bytes as nat, MIB as nat)) + " MB"@
    } else {
        two_places(hundredths(double_of(bytes as nat), GIB as nat)) + " GB"@
    }
}

proof fn lemma_pow2_bound(k: nat)
    requires
        k <= 11,
    ensures
        1 <= pow2(k) <= 2048,
{
    reveal_with_fuel(pow2, 12);
    if k == 0 {
    } else if k == 1 {
    } else if k == 2 {
    } else if k == 3 {
    } else if k == 4 {
    } else if k == 5 {
    } else if k == 6 {
    } else if k == 7 {
    } else if k == 8 {
    } else if k == 9 {
    } else if k == 10 {
    } else {
    }
}

fn double_value(n: u64) -> (r: u128)
    ensures
        r == double_of(n as nat),
        r <= 0x2_0000_0000_0000_0000,
{
    let mut j: u64 = 0;
    let mut unit: u128 = 1;
    proof {
        lemma_pow2_bound(0);
    }
    while j < 11 && (n as u128) / unit >= EXACT_LIMIT
        invariant
            j <= 11,
            unit == pow2(j as nat),
            1 <= unit <= 2048,
            double_unit(n as nat, 0) == double_unit(n as nat, j as nat),
        decreases 11 - j,
    {
        proof {
            lemma_pow2_bound((j + 1) as nat);
        }
        unit = unit * 2;
        j += 1;
    }
    proof {
        lemma_pow2_bound(j as nat);
    }
    if unit == 1 {
        return n as u128;
    }
    let q = (n as u128) / unit;
    let r = (n as u128) % unit;
    let half = unit / 2;
    let rounded = if r > half || (r == half && q % 2 == 1) {
        q + 1
    } else {
        q
    };
    assert(rounded * unit <= 0x1_0000_0000_0000_0000 * 2) by (nonlinear_arith)
        requires
            q == n as int / unit as int,
            rounded <= q + 1,
            1 <= unit <= 2048,
            n < 0x1_0000_0000_0000_0000,
    ;
    rounded * unit
}

fn push_two_places(s: &mut String, h: u128)
    ensures
        final(s)@ == old(s)@ + two_places(h as nat),
{
    push_decimal_wide(s, h / 100);
    s.append(".");
    let frac = (h % 100) as u64;
    if frac < 10 {
        s.append("0");
    }
    push_decimal(s, frac);
    proof {
        reveal_strlit("0");
        if frac < 10 {
            assert(dec_text(frac as nat) == seq![crate::text::digit_char(frac as nat)]);
            assert(zero_pad(dec_text(frac as nat), 2) =~= "0"@ + dec_text(frac as nat));
        } else {
            assert(dec_text(frac as nat).len() >= 2) by {
                crate::text::lemma_dec_text_nonempty((frac / 10) as nat);
            }
        }
        assert(s@ =~= old(s)@ + two_places(h as nat));
    }
}

fn rounded_hundredths(num: u128, den: u128) -> (r: u128)
    requires
        0 < den <= GIB,
        num <= 0x2_0000_0000_0000_0000,
    ensures
        r == hundredths(num as nat, den as nat),
{
    let q = (num * 100) / den;
    let rem = (num * 100) % den;
    assert(q as int <= num as int * 100) by (nonlinear_arith)
        requires
            den > 0,
            q as int == (num as int * 100) / den as int,
    ;
    assert((rem as int) < den as int) by (nonlinear_arith)
        requires
            den > 0,
            rem as int == (num as int * 100) % den as int,
    ;
    if 2 * rem > den || (2 * rem == den && q % 2 == 1) {
        q + 1
    } else {
        q
    }
}

/// A byte count for display: "512 B", "1.50 KB", "1.00 MB", "2.00 GB". The
/// decimal places are those of the quotient as a double, rounded to nearest
/// with ties to even.
pub fn format_size(bytes: u64) -> (r: String)
    ensures
        r@ == size_text(bytes),
{
    let mut s = String::new();
    if bytes < KIB {
        push_decimal(&mut s, bytes);
        s.append(" B");
    } else if bytes < MIB {
        let h = rounded_hundredths(bytes as u128, KIB as u128);
        push_two_places(&mut s, h);
        s.append(" KB");
    } else if bytes < GIB {
        let h = rounded_hundredths(bytes as u128, MIB as u128);
        push_two_places(&mut s, h);
        s.append(" MB");
    } else {
        let v = double_value(bytes);
        let h = rounded_hundredths(v, GIB as u128);
        push_two_places(&mut s, h);
        s.append(" GB");
    }
    proof {
        assert(s@ =~= size_text(bytes));
    }
    s
}

} // verus!
