//! Sizes in words.

use vstd::prelude::*;

use crate::text::{append_decimal, decimal, digit};

verus! {

/// What a unit of size holds of the next smaller one.
pub const UNIT_STEP: u64 = 1024;

/// Whole numbers from here on are not all told apart by a double.
pub const DOUBLE_LIMIT: u64 = 0x20_0000_0000_0000;

/// The whole number nearest to `n / d`; of two that are equally near, the even one.
pub open spec fn nearest(n: nat, d: nat) -> nat {
    let whole = n / d;
    let rest = n % d;
    if 2 * rest < d || (2 * rest == d && whole % 2 == 0) {
        whole
    } else {
        whole + 1
    }
}

/// The distance between doubles of the magnitude of `n`.
pub open spec fn spacing(n: nat) -> nat
    decreases n,
{
    if n < DOUBLE_LIMIT {
        1
    } else {
        2 * spacing(n / 2)
    }
}

/// The double nearest to `n`.
pub open spec fn nearest_double(n: nat) -> nat {
    nearest(n, spacing(n)) * spacing(n)
}

/// How many bytes a unit holds, for each unit from bytes on.
pub open spec fn unit_size(unit: nat) -> nat
    decreases unit,
{
    if unit == 0 {
        1
    } else {
        UNIT_STEP as nat * unit_size((unit - 1) as nat)
    }
}

/// The name of a unit.
pub open spec fn unit_name(unit: nat) -> Seq<char> {
    if unit == 0 {
        " B"@
    } else if unit == 1 {
        " KB"@
    } else if unit == 2 {
        " MB"@
    } else if unit == 3 {
        " GB"@
    } else {
        " TB"@
    }
}

/// The largest unit that a size fills.
pub open spec fn unit_of(size: nat) -> nat {
    if size < unit_size(1) {
        0
    } else if size < unit_size(2) {
        1
    } else if size < unit_size(3) {
        2
    } else if size < unit_size(4) {
        3
    } else {
        4
    }
}

/// A number of hundredths, with two digits after the point.
pub open spec fn with_hundredths(hundredths: nat) -> Seq<char> {
    decimal(hundredths / 100) + seq!['.', digit(hundredths / 10 % 10), digit(hundredths % 10)]
}

/// A size in words: rounded to a double, then in bytes or, to two digits after the point, in the
/// largest unit that it fills. A negative size stays in bytes.
pub open spec fn size_text(size: int) -> Seq<char> {
    if size < 0 {
        seq!['-'] + decimal(nearest_double((-size) as nat)) + unit_name(0)
    } else {
        let rounded = nearest_double(size as nat);
        let unit = unit_of(rounded);
        if unit == 0 {
            decimal(rounded) + unit_name(0)
        } else {
            with_hundredths(nearest(rounded * 100, unit_size(unit))) + unit_name(unit)
        }
    }
}

/// The whole number nearest to `n / d`; of two that are equally near, the even one.
fn divide_to_nearest(n: u128, d: u128) -> (q: u128)
    requires
        0 < d <= u64::MAX,
        n <= 100 * u64::MAX,
    ensures
        q == nearest(n as nat, d as nat),
        q <= n / d + 1,
{
    let whole: u128 = n / d;
    let rest: u128 = n % d;
    assert(whole <= n) by (nonlinear_arith)
        requires
            whole == n / d,
            d > 0,
    ;
    if 2 * rest < d || (2 * rest == d && whole % 2 == 0) {
        whole
    } else {
        whole + 1
    }
}

/// The double nearest to a number.
fn round_to_double(n: u64) -> (rounded: u64)
    requires
        n <= 0x8000_0000_0000_0000,
    ensures
        rounded == nearest_double(n as nat),
{
    let mut top: u64 = n;
    let mut step: u64 = 1;
    while top >= DOUBLE_LIMIT
        invariant
            n <= 0x8000_0000_0000_0000,
            spacing(n as nat) == step * spacing(top as nat),
            step >= 1,
            step * top <= n,
            step == 1 || top >= DOUBLE_LIMIT / 2,
        decreases top,
    {
        proof {
            let half = (top / 2) as nat;
            assert(step * (2 * spacing(half)) == (2 * step) * spacing(half)) by (nonlinear_arith);
            assert((2 * step) * (top / 2) <= step * top) by (nonlinear_arith)
                requires
                    2 * (top / 2) <= top,
            ;
            assert(2 * step <= n) by (nonlinear_arith)
                requires
                    step * top <= n,
                    top >= 2,
                    step >= 1,
            ;
        }
        top = top / 2;
        step = step * 2;
    }
    assert(step * spacing(top as nat) == step) by (nonlinear_arith)
        requires
            spacing(top as nat) == 1,
    ;
    assert(step <= 2048) by (nonlinear_arith)
        requires
            step * top <= n,
            n <= 0x8000_0000_0000_0000,
            step == 1 || top >= 0x10_0000_0000_0000,
    ;
    let q: u128 = divide_to_nearest(n as u128, step as u128);
    assert(q * step <= n + step) by (nonlinear_arith)
        requires
            q <= n / step + 1,
            step >= 1,
    ;
    (q as u64) * step
}

/// Appends a number of hundredths.
fn append_hundredths(text: &mut String, hundredths: u64)
    ensures
        final(text)@ == old(text)@ + with_hundredths(hundredths as nat),
{
    append_decimal(text, hundredths / 100);
    text.append(".");
    append_decimal(text, hundredths / 10 % 10);
    append_decimal(text, hundredths % 10);
    proof {
        reveal_strlit(".");
        let n = hundredths as nat;
        assert(decimal(n / 10 % 10) == seq![digit(n / 10 % 10)]);
        assert(decimal(n % 10) == seq![digit(n % 10)]);
        assert(text@ =~= old(text)@ + with_hundredths(n));
    }
}

/// A size in words.
pub fn human_readable_size(size: i64) -> (text: String)
    ensures
        text@ == size_text(size as int),
{
    let mut text: String = String::new();
    if size < 0 {
        let magnitude: u64 = (-(size as i128)) as u64;
        text.append("-");
        append_decimal(&mut text, round_to_double(magnitude));
        text.append(" B");
        proof {
            reveal_strlit("-");
            assert(text@ =~= size_text(size as int));
        }
        return text;
    }
    let rounded: u64 = round_to_double(size as u64);
    proof {
        reveal_with_fuel(unit_size, 5);
    }
    let mut unit: u64 = 0;
    let mut bytes: u64 = 1;
    if rounded >= 1024 {
        unit = 1;
        bytes = 1024;
    }
    if rounded >= 1048576 {
        unit = 2;
        bytes = 1048576;
    }
    if rounded >= 1073741824 {
        unit = 3;
        bytes = 1073741824;
    }
    if rounded >= 1099511627776 {
        unit = 4;
        bytes = 1099511627776;
    }
    assert(unit == unit_of(rounded as nat));
    assert(bytes == unit_size(unit as nat));
    if unit == 0 {
        append_decimal(&mut text, rounded);
        text.append(" B");
        assert(text@ =~= size_text(size as int));
        return text;
    }
    let hundredths: u128 = divide_to_nearest(rounded as u128 * 100, bytes as u128);
    assert(hundredths <= u64::MAX) by (nonlinear_arith)
        requires
            hundredths <= (rounded * 100) / (bytes as int) + 1,
            rounded <= u64::MAX,
            bytes >= 1024,
    ;
    append_hundredths(&mut text, hundredths as u64);
    if unit == 1 {
        text.append(" KB");
    } else if unit == 2 {
        text.append(" MB");
    } else if unit == 3 {
        text.append(" GB");
    } else {
        text.append(" TB");
    }
    assert(text@ =~= size_text(size as int));
    text
}

/// A size that does not fill the first unit is told in full.
pub proof fn law_small_sizes_are_exact(size: int)
    requires
        0 <= size < UNIT_STEP,
    ensures
        size_text(size) == decimal(size as nat) + " B"@,
{
    reveal_with_fuel(unit_size, 2);
    let n = size as nat;
    assert(spacing(n) == 1);
    assert(n / 1 == n && n % 1 == 0);
}

/// A quotient is rounded to a whole number that is no more than a half away, and to an even one where
/// two are equally near.
pub proof fn law_rounding_is_to_the_nearest(n: nat, d: nat)
    requires
        d > 0,
    ensures
        2 * n <= 2 * (nearest(n, d) * d) + d,
        2 * (nearest(n, d) * d) <= 2 * n + d,
        2 * n == 2 * (nearest(n, d) * d) + d ==> nearest(n, d) % 2 == 0,
        2 * (nearest(n, d) * d) == 2 * n + d ==> nearest(n, d) % 2 == 0,
{
    vstd::arithmetic::div_mod::lemma_fundamental_div_mod(n as int, d as int);
    let whole = (n / d) as int;
    let step = d as int;
    assert(step * whole == whole * step) by (nonlinear_arith);
    assert((whole + 1) * step == whole * step + step) by (nonlinear_arith);
}

/// The distance between doubles is a power of two, of which a number beyond the first that are not all
/// told apart holds at least 2^52 and fewer than 2^53.
pub proof fn law_doubles_have_53_bits(n: nat)
    ensures
        exists|k: nat| spacing(n) == #[trigger] vstd::arithmetic::power2::pow2(k),
        n < 0x20_0000_0000_0000 ==> spacing(n) == 1,
        n >= 0x20_0000_0000_0000 ==> spacing(n) * 0x10_0000_0000_0000 <= n,
        n < spacing(n) * 0x20_0000_0000_0000,
    decreases n,
{
    vstd::arithmetic::power2::lemma2_to64();
    if n < DOUBLE_LIMIT {
        assert(spacing(n) == vstd::arithmetic::power2::pow2(0));
    } else {
        law_doubles_have_53_bits(n / 2);
        let k = choose|k: nat| spacing(n / 2) == #[trigger] vstd::arithmetic::power2::pow2(k);
        vstd::arithmetic::power2::lemma_pow2_unfold(k + 1);
        assert(spacing(n) == vstd::arithmetic::power2::pow2(k + 1));
    }
}

/// A number is rounded to a double that is no more than half the distance between doubles away; where
/// doubles tell all numbers apart it stays as it is.
pub proof fn law_double_is_the_nearest(n: nat)
    ensures
        n < 0x20_0000_0000_0000 ==> nearest_double(n) == n,
        nearest_double(n) == nearest(n, spacing(n)) * spacing(n),
        2 * n <= 2 * nearest_double(n) + spacing(n),
        2 * nearest_double(n) <= 2 * n + spacing(n),
{
    law_doubles_have_53_bits(n);
    law_rounding_is_to_the_nearest(n, spacing(n));
    if n < DOUBLE_LIMIT {
        assert(n / 1 == n && n % 1 == 0);
    }
}

/// A size from 1024 bytes on is told in the largest of four units that it fills, each 1024 times the
/// one before, in hundredths to the nearest: the whole units, a point, and two digits.
pub proof fn law_large_sizes_are_in_units(size: int)
    requires
        size >= 1024,
    ensures
        ({
            let bytes = nearest_double(size as nat);
            let (unit, name) = if bytes < 1048576 {
                (1024nat, " KB"@)
            } else if bytes < 1073741824 {
                (1048576nat, " MB"@)
            } else if bytes < 1099511627776 {
                (1073741824nat, " GB"@)
            } else {
                (1099511627776nat, " TB"@)
            };
            let hundredths = nearest(bytes * 100, unit);
            let text = decimal(hundredths / 100);
            let told = size_text(size);
            &&& told.len() == text.len() + 3 + name.len()
            &&& told.take(text.len() as int) == text
            &&& told[text.len() as int] == '.'
            &&& told[text.len() as int + 1] as nat == '0' as nat + hundredths / 10 % 10
            &&& told[text.len() as int + 2] as nat == '0' as nat + hundredths % 10
            &&& told.skip(text.len() as int + 3) == name
        }),
{
    reveal_with_fuel(unit_size, 5);
    let n = size as nat;
    law_double_is_the_nearest(n);
    law_doubles_have_53_bits(n);
    let bytes = nearest_double(n);
    assert(bytes >= 1024);
    let unit = unit_of(bytes);
    let hundredths = nearest(bytes * 100, unit_size(unit));
    let text = decimal(hundredths / 100);
    let told = size_text(size);
    assert(told =~= text + seq!['.', digit(hundredths / 10 % 10), digit(hundredths % 10)]
        + unit_name(unit));
    assert(told.take(text.len() as int) =~= text);
    assert(told.skip(text.len() as int + 3) =~= unit_name(unit));
}

/// A negative size is told in bytes, with a minus sign.
pub proof fn law_negative_sizes_are_in_bytes(size: int)
    requires
        size < 0,
    ensures
        size_text(size)[0] == '-',
        size_text(size).drop_first() == decimal(nearest_double((-size) as nat)) + " B"@,
{
    assert(size_text(size).drop_first() =~= decimal(nearest_double((-size) as nat)) + " B"@);
}

}
