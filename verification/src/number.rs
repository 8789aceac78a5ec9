//! Fixed-point numbers: the numeric values of the language, counted in
//! millionths.

use vstd::prelude::*;

verus! {

/// How many units of a [`Number`] make one.
pub const SCALE: i64 = 1_000_000;

/// A number of the language, held as a count of millionths.
///
/// `Number { micros: 2_500_000 }` is two and a half.
#[derive(Debug, Clone, Copy, PartialEq, Eq, Structural)]
pub struct Number {
    pub micros: i64,
}

/// The distance of `m` from zero.
pub open spec fn magnitude(m: int) -> int {
    if m < 0 {
        -m
    } else {
        m
    }
}

/// `m` times `factor` thousandths, rounded toward zero and held within the
/// range of a `Number` that has a negation.
pub open spec fn scale_micros(m: int, factor: int) -> int {
    let grown = magnitude(m) * factor / 1000;
    let held = if grown > i64::MAX {
        i64::MAX as int
    } else {
        grown
    };
    if m < 0 {
        -held
    } else {
        held
    }
}

/// `m` held between nothing and one whole.
pub open spec fn clamp_unit_micros(m: int) -> int {
    if m < 0 {
        0
    } else if m > SCALE {
        SCALE as int
    } else {
        m
    }
}

impl Number {
    /// The whole number `n`.
    pub fn from_integer(n: i32) -> (number: Number)
        ensures
            number.micros == n * SCALE,
    {
        assert(-0x8000_0000 * 1_000_000 <= n * 1_000_000 <= 0x7fff_ffff * 1_000_000)
            by (nonlinear_arith)
            requires
                -0x8000_0000 <= n <= 0x7fff_ffff,
        ;
        let wide: i64 = n as i64;
        Number { micros: wide * SCALE }
    }

    /// The number of millionths, as given.
    pub fn from_micros(micros: i64) -> (number: Number)
        ensures
            number.micros == micros,
    {
        Number { micros }
    }

    /// This number times `factor` thousandths. The product is rounded toward
    /// zero; one too large to hold stays at the largest number that can be
    /// held, with its sign.
    pub fn scaled(self, factor: u32) -> (number: Number)
        ensures
            number.micros == scale_micros(self.micros as int, factor as int),
    {
        let negative = self.micros < 0;
        let size: u128 = if negative {
            (-(self.micros as i128)) as u128
        } else {
            self.micros as u128
        };
        assert(size == magnitude(self.micros as int));
        assert(size * factor <= 0x8000_0000_0000_0000 * 0x1_0000_0000) by (nonlinear_arith)
            requires
                size <= 0x8000_0000_0000_0000,
                factor <= 0x1_0000_0000,
        ;
        let grown: u128 = size * (factor as u128) / 1000;
        let held: i64 = if grown > (i64::MAX as u128) {
            i64::MAX
        } else {
            grown as i64
        };
        if negative {
            Number { micros: -held }
        } else {
            Number { micros: held }
        }
    }

    /// This number held between zero and one.
    pub fn clamp_unit(self) -> (number: Number)
        ensures
            number.micros == clamp_unit_micros(self.micros as int),
            0 <= number.micros <= SCALE,
    {
        if self.micros < 0 {
            Number { micros: 0 }
        } else if self.micros > SCALE {
            Number { micros: SCALE }
        } else {
            self
        }
    }
}

/// A factor of one whole leaves every number that has a negation as it is.
pub proof fn lemma_scale_by_one(m: int)
    requires
        -i64::MAX <= m <= i64::MAX,
    ensures
        scale_micros(m, 1000) == m,
{
    assert(magnitude(m) * 1000 / 1000 == magnitude(m)) by (nonlinear_arith);
}

/// The character that writes the digit `d`.
pub open spec fn digit_char(d: nat) -> char {
    if d == 0 {
        '0'
    } else if d == 1 {
        '1'
    } else if d == 2 {
        '2'
    } else if d == 3 {
        '3'
    } else if d == 4 {
        '4'
    } else if d == 5 {
        '5'
    } else if d == 6 {
        '6'
    } else if d == 7 {
        '7'
    } else if d == 8 {
        '8'
    } else {
        '9'
    }
}

/// The decimal digits of `n`, without leading zeros.
pub open spec fn digits_of(n: nat) -> Seq<char>
    decreases n,
{
    if n < 10 {
        seq![digit_char(n)]
    } else {
        digits_of(n / 10).push(digit_char(n % 10))
    }
}

/// The last `width` decimal digits of `n`, with leading zeros where `n` has
/// fewer.
pub open spec fn fixed_digits(n: nat, width: nat) -> Seq<char>
    decreases width,
{
    if width == 0 {
        Seq::empty()
    } else {
        fixed_digits(n / 10, (width - 1) as nat).push(digit_char(n % 10))
    }
}

/// How a count of millionths is written: a minus sign where it is below
/// zero, the whole part, a point, and six digits after it.
pub open spec fn rendered_micros(m: int) -> Seq<char> {
    let size = magnitude(m) as nat;
    let sign = if m < 0 {
        seq!['-']
    } else {
        Seq::empty()
    };
    sign + digits_of(size / 1_000_000) + seq!['.'] + fixed_digits(size % 1_000_000, 6)
}

/// The character that writes the digit `d`.
fn digit_to_char(d: u64) -> (c: char)
    requires
        d < 10,
    ensures
        c == digit_char(d as nat),
{
    if d == 0 {
        '0'
    } else if d == 1 {
        '1'
    } else if d == 2 {
        '2'
    } else if d == 3 {
        '3'
    } else if d == 4 {
        '4'
    } else if d == 5 {
        '5'
    } else if d == 6 {
        '6'
    } else if d == 7 {
        '7'
    } else if d == 8 {
        '8'
    } else {
        '9'
    }
}

/// Writes the decimal digits of `n` at the end of `text`.
fn push_digits(text: &mut String, n: u64)
    ensures
        final(text)@ == old(text)@ + digits_of(n as nat),
    decreases n,
{
    if n >= 10 {
        push_digits(text, n / 10);
    }
    text.push(digit_to_char(n % 10));
    assert(text@ =~= old(text)@ + digits_of(n as nat));
}

/// Writes the last `width` decimal digits of `n` at the end of `text`.
fn push_fixed_digits(text: &mut String, n: u64, width: u8)
    ensures
        final(text)@ == old(text)@ + fixed_digits(n as nat, width as nat),
    decreases width,
{
    if width > 0 {
        push_fixed_digits(text, n / 10, width - 1);
        text.push(digit_to_char(n % 10));
    }
    assert(text@ =~= old(text)@ + fixed_digits(n as nat, width as nat));
}

impl Number {
    /// Writes this number at the end of `text`.
    pub fn render_into(self, text: &mut String)
        ensures
            final(text)@ == old(text)@ + rendered_micros(self.micros as int),
    {
        let size: u64 = if self.micros < 0 {
            text.push('-');
            (-(self.micros as i128)) as u64
        } else {
            self.micros as u64
        };
        push_digits(text, size / 1_000_000);
        text.push('.');
        push_fixed_digits(text, size % 1_000_000, 6);
        assert(text@ =~= old(text)@ + rendered_micros(self.micros as int));
    }

    /// This number in writing: `-2.500000` for minus two and a half.
    pub fn render(self) -> (text: String)
        ensures
            text@ == rendered_micros(self.micros as int),
    {
        let mut text = String::new();
        self.render_into(&mut text);
        assert(Seq::<char>::empty() + rendered_micros(self.micros as int) =~= rendered_micros(
            self.micros as int,
        ));
        text
    }
}

} // verus!
