//! Quantities as the cluster writes them: an integer followed by a unit.
//!
//! Memory is counted in bytes and processor time in millicpu, both as
//! unsigned 64-bit integers.

use crate::satisfiability::Error;
use vstd::prelude::*;
use vstd::string::*;

verus! {

/// What a quantity measures, which decides the units it may carry.
#[derive(Clone, Copy, Debug, PartialEq, Eq, Structural)]
pub enum Dimension {
    /// Bytes. Units: `Ki Mi Gi Ti Pi Ei` (powers of 1024) and
    /// `K M G T P E` (powers of 1000).
    Memory,
    /// Millicpu. Units: `m` (millicpu), `u` (a thousandth of one) and
    /// `n` (a millionth of one); fractions of a millicpu are dropped.
    Cpu,
}

pub open spec fn is_digit(c: char) -> bool {
    '0' <= c && c <= '9'
}

pub open spec fn digit_of(c: char) -> nat {
    (c as int - '0' as int) as nat
}

/// The number that a sequence of decimal digits writes.
pub open spec fn digits_value(digits: Seq<char>) -> nat
    decreases digits.len(),
{
    if digits.len() == 0 {
        0
    } else {
        10 * digits_value(digits.drop_last()) + digit_of(digits.last())
    }
}

/// How many decimal digits the text starts with.
pub open spec fn digit_prefix_len(text: Seq<char>) -> nat
    decreases text.len(),
{
    if text.len() > 0 && is_digit(text[0]) {
        1 + digit_prefix_len(text.skip(1))
    } else {
        0
    }
}

/// The factor of a binary prefix letter, as in `Ki` or `Gi`.
pub open spec fn binary_factor(prefix: char) -> Option<nat> {
    if prefix == 'K' {
        Some(0x400nat)
    } else if prefix == 'M' {
        Some(0x10_0000nat)
    } else if prefix == 'G' {
        Some(0x4000_0000nat)
    } else if prefix == 'T' {
        Some(0x100_0000_0000nat)
    } else if prefix == 'P' {
        Some(0x4_0000_0000_0000nat)
    } else if prefix == 'E' {
        Some(0x1000_0000_0000_0000nat)
    } else {
        None
    }
}

/// The factor of a decimal prefix letter, as in `K` or `G`.
pub open spec fn decimal_factor(prefix: char) -> Option<nat> {
    if prefix == 'K' {
        Some(1_000nat)
    } else if prefix == 'M' {
        Some(1_000_000nat)
    } else if prefix == 'G' {
        Some(1_000_000_000nat)
    } else if prefix == 'T' {
        Some(1_000_000_000_000nat)
    } else if prefix == 'P' {
        Some(1_000_000_000_000_000nat)
    } else if prefix == 'E' {
        Some(1_000_000_000_000_000_000nat)
    } else {
        None
    }
}

/// How many of a fractional processor unit make one millicpu.
pub open spec fn cpu_divisor(unit: char) -> Option<nat> {
    if unit == 'm' {
        Some(1nat)
    } else if unit == 'u' {
        Some(1_000nat)
    } else if unit == 'n' {
        Some(1_000_000nat)
    } else {
        None
    }
}

/// The scale of a unit as a pair: the integer is multiplied by the
/// first number and then divided by the second. A memory unit is a
/// prefix letter alone (decimal) or followed by `i` (binary); a
/// processor unit is a single letter.
pub open spec fn unit_scale(unit: Seq<char>, dimension: Dimension) -> Option<(nat, nat)> {
    match dimension {
        Dimension::Memory => {
            if unit.len() == 2 && unit[1] == 'i' && binary_factor(unit[0]) is Some {
                Some((binary_factor(unit[0])->0, 1nat))
            } else if unit.len() == 1 && decimal_factor(unit[0]) is Some {
                Some((decimal_factor(unit[0])->0, 1nat))
            } else {
                None
            }
        },
        Dimension::Cpu => {
            if unit.len() == 1 && cpu_divisor(unit[0]) is Some {
                Some((1nat, cpu_divisor(unit[0])->0))
            } else {
                None
            }
        },
    }
}

/// What a text is worth as a quantity of the given dimension: its
/// leading digits, of which there is at least one, scaled by the unit
/// that the rest of the text spells. `None` where the text has no such
/// form, or where the integer or the scaled result exceeds 64 bits.
pub open spec fn parsed_quantity(text: Seq<char>, dimension: Dimension) -> Option<u64> {
    let n = digit_prefix_len(text) as int;
    let integer = digits_value(text.take(n));
    if n > 0 && integer <= u64::MAX {
        match unit_scale(text.skip(n), dimension) {
            Some((times, over)) => if integer * times / over <= u64::MAX {
                Some((integer * times / over) as u64)
            } else {
                None
            },
            None => None,
        }
    } else {
        None
    }
}

proof fn lemma_digit_prefix_step(text: Seq<char>, i: int)
    requires
        0 <= i <= text.len(),
    ensures
        i < text.len() && is_digit(text[i]) ==> digit_prefix_len(text.skip(i)) == 1
            + digit_prefix_len(text.skip(i + 1)),
        !(i < text.len() && is_digit(text[i])) ==> digit_prefix_len(text.skip(i)) == 0,
{
    if i < text.len() {
        assert(text.skip(i)[0] == text[i]);
        assert(text.skip(i).skip(1) =~= text.skip(i + 1));
    }
}

proof fn lemma_digits_push(text: Seq<char>, i: int)
    requires
        0 <= i < text.len(),
    ensures
        digits_value(text.take(i + 1)) == 10 * digits_value(text.take(i)) + digit_of(text[i]),
{
    assert(text.take(i + 1).drop_last() =~= text.take(i));
    assert(text.take(i + 1).last() == text[i]);
}

proof fn lemma_prefix_is_digits(text: Seq<char>)
    ensures
        digit_prefix_len(text) <= text.len(),
        forall|j: int| 0 <= j < digit_prefix_len(text) ==> is_digit(#[trigger] text[j]),
    decreases text.len(),
{
    if text.len() > 0 && is_digit(text[0]) {
        lemma_prefix_is_digits(text.skip(1));
        assert forall|j: int| 0 <= j < digit_prefix_len(text) implies is_digit(
            #[trigger] text[j],
        ) by {
            if j > 0 {
                assert(text[j] == text.skip(1)[j - 1]);
            }
        }
    }
}

proof fn lemma_unit_is_short_ascii(unit: Seq<char>, dimension: Dimension)
    requires
        unit_scale(unit, dimension) is Some,
    ensures
        1 <= unit.len() <= 2,
        forall|j: int| 0 <= j < unit.len() ==> '\0' <= #[trigger] unit[j] <= '\u{7f}',
        !is_digit(unit[0]),
{
}

/// A text with a character outside ASCII is no quantity.
proof fn lemma_quantity_is_ascii(text: Seq<char>, dimension: Dimension)
    requires
        parsed_quantity(text, dimension) is Some,
    ensures
        vstd::utf8::is_ascii_chars(text),
{
    let n = digit_prefix_len(text) as int;
    lemma_prefix_is_digits(text);
    let unit = text.skip(n);
    lemma_unit_is_short_ascii(unit, dimension);
    assert forall|j: int| 0 <= j < text.len() implies '\0' <= #[trigger] text[j] <= '\u{7f}' by {
        if j >= n {
            assert(text[j] == unit[j - n]);
        }
    }
}

/// Reads the leading decimal digits of an ASCII text: how many there
/// are, and the number they write unless it exceeds 64 bits.
fn leading_integer(text: &str, len: usize) -> (r: (usize, Option<u64>))
    requires
        text.is_ascii(),
        len == text@.len(),
    ensures
        r.0 == digit_prefix_len(text@),
        r.0 <= len,
        r.1 matches Some(v) ==> v == digits_value(text@.take(r.0 as int)),
        r.1 is None ==> digits_value(text@.take(r.0 as int)) > u64::MAX,
{
    let mut i: usize = 0;
    let mut value: Option<u64> = Some(0);
    proof {
        assert(text@.skip(0) =~= text@);
        assert(text@.take(0).len() == 0);
    }
    loop
        invariant_except_break
            digit_prefix_len(text@) == i + digit_prefix_len(text@.skip(i as int)),
        invariant
            text.is_ascii(),
            len == text@.len(),
            i <= len,
            value matches Some(v) ==> v == digits_value(text@.take(i as int)),
            value is None ==> digits_value(text@.take(i as int)) > u64::MAX,
        ensures
            i == digit_prefix_len(text@),
        decreases len - i,
    {
        proof {
            lemma_digit_prefix_step(text@, i as int);
        }
        if i >= len {
            break ;
        }
        let b: u8 = text.get_ascii(i);
        if b < 48 || b > 57 {
            break ;
        }
        let d: u64 = (b - 48) as u64;
        proof {
            lemma_digits_push(text@, i as int);
            assert(digit_of(text@[i as int]) == d);
        }
        value =
        match value {
            Some(v) => if v <= (u64::MAX - d) / 10 {
                Some(10 * v + d)
            } else {
                None
            },
            None => None,
        };
        i = i + 1;
    }
    (i, value)
}

/// Reads the unit that an ASCII text spells from position `from` on.
fn scale_of_unit(text: &str, from: usize, len: usize, dimension: Dimension) -> (r: Option<
    (u64, u64),
>)
    requires
        text.is_ascii(),
        len == text@.len(),
        from <= len,
    ensures
        match r {
            Some((times, over)) => unit_scale(text@.skip(from as int), dimension) == Some(
                (times as nat, over as nat),
            ) && over > 0 && times <= 0x1000_0000_0000_0000,
            None => unit_scale(text@.skip(from as int), dimension) is None,
        },
{
    let ghost unit = text@.skip(from as int);
    let rest: usize = len - from;
    if rest == 1 {
        let c: u8 = text.get_ascii(from);
        assert(unit.len() == 1 && unit[0] == c as char);
        match dimension {
            Dimension::Memory => {
                if c == 75 {
                    Some((1_000, 1))
                } else if c == 77 {
                    Some((1_000_000, 1))
                } else if c == 71 {
                    Some((1_000_000_000, 1))
                } else if c == 84 {
                    Some((1_000_000_000_000, 1))
                } else if c == 80 {
                    Some((1_000_000_000_000_000, 1))
                } else if c == 69 {
                    Some((1_000_000_000_000_000_000, 1))
                } else {
                    None
                }
            },
            Dimension::Cpu => {
                if c == 109 {
                    Some((1, 1))
                } else if c == 117 {
                    Some((1, 1_000))
                } else if c == 110 {
                    Some((1, 1_000_000))
                } else {
                    None
                }
            },
        }
    } else if rest == 2 {
        let c: u8 = text.get_ascii(from);
        let i: u8 = text.get_ascii(from + 1);
        assert(unit.len() == 2 && unit[0] == c as char && unit[1] == i as char);
        match dimension {
            Dimension::Memory => {
                if i != 105 {
                    None
                } else if c == 75 {
                    Some((0x400, 1))
                } else if c == 77 {
                    Some((0x10_0000, 1))
                } else if c == 71 {
                    Some((0x4000_0000, 1))
                } else if c == 84 {
                    Some((0x100_0000_0000, 1))
                } else if c == 80 {
                    Some((0x4_0000_0000_0000, 1))
                } else if c == 69 {
                    Some((0x1000_0000_0000_0000, 1))
                } else {
                    None
                }
            },
            Dimension::Cpu => None,
        }
    } else {
        assert(unit.len() == rest);
        None
    }
}

/// Reads a quantity of the given dimension.
///
/// Succeeds exactly on the texts that [`parsed_quantity`] gives a
/// value; every other text comes back inside the error.
pub fn parse_quantity(quantity: &str, dimension: Dimension) -> (r: Result<u64, Error>)
    ensures
        match r {
            Ok(v) => parsed_quantity(quantity@, dimension) == Some(v),
            Err(e) => parsed_quantity(quantity@, dimension) is None && (e matches Error::QuantityParsing(
                text,
            ) && text@ == quantity@),
        },
{
    if !quantity.is_ascii() {
        proof {
            if parsed_quantity(quantity@, dimension) is Some {
                lemma_quantity_is_ascii(quantity@, dimension);
            }
        }
        return Err(Error::QuantityParsing(quantity.to_owned()));
    }
    let len = quantity.unicode_len();
    let (n, integer) = leading_integer(quantity, len);
    if n == 0 {
        return Err(Error::QuantityParsing(quantity.to_owned()));
    }
    let integer = match integer {
        Some(v) => v,
        None => {
            return Err(Error::QuantityParsing(quantity.to_owned()));
        },
    };
    match scale_of_unit(quantity, n, len, dimension) {
        Some((times, over)) => {
            assert(integer * times <= 0xffff_ffff_ffff_ffff * 0x1000_0000_0000_0000) by (nonlinear_arith)
                requires
                    integer <= 0xffff_ffff_ffff_ffff,
                    times <= 0x1000_0000_0000_0000,
            ;
            let product: u128 = (integer as u128) * (times as u128);
            let scaled: u128 = product / (over as u128);
            if scaled <= u64::MAX as u128 {
                Ok(scaled as u64)
            } else {
                Err(Error::QuantityParsing(quantity.to_owned()))
            }
        },
        None => Err(Error::QuantityParsing(quantity.to_owned())),
    }
}

} // verus!
