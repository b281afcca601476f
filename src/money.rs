use vstd::prelude::*;

verus! {

/// How many units make one whole currency unit: `Money` carries four
/// decimal places exactly.
pub const UNITS_PER_WHOLE: i64 = 10000;

/// An exact fixed-point amount of money, counted in ten-thousandths.
///
/// Addition and subtraction are exact; an operation whose result does not
/// fit is reported instead of rounded.
#[derive(Clone, Copy, Debug, PartialEq, Eq, Structural)]
pub struct Money {
    pub units: i64,
}

/// Whether an exact amount, in units, can be held by a `Money`.
pub open spec fn fits(x: int) -> bool {
    i64::MIN <= x <= i64::MAX
}

/// The exact sum of two amounts, or `None` where it does not fit.
pub open spec fn sum(a: Money, b: Money) -> Option<Money> {
    if fits(a@ + b@) {
        Some(Money { units: (a@ + b@) as i64 })
    } else {
        None
    }
}

/// The exact difference of two amounts, or `None` where it does not fit.
pub open spec fn difference(a: Money, b: Money) -> Option<Money> {
    if fits(a@ - b@) {
        Some(Money { units: (a@ - b@) as i64 })
    } else {
        None
    }
}

/// Whether `c` is one of the digits `0` to `9`.
pub open spec fn is_digit(c: char) -> bool {
    '0' <= c && c <= '9'
}

pub open spec fn all_digits(s: Seq<char>) -> bool {
    forall|i: int| 0 <= i < s.len() ==> is_digit(#[trigger] s[i])
}

/// The number that a string of decimal digits denotes.
pub open spec fn digits_value(s: Seq<char>) -> int
    decreases s.len(),
{
    if s.len() == 0 {
        0
    } else {
        digits_value(s.drop_last()) * 10 + (s.last() as u32 - '0' as u32)
    }
}

/// `1` where `s` starts with a minus sign, else `0`.
pub open spec fn sign_len(s: Seq<char>) -> int {
    if s.len() > 0 && s[0] == '-' {
        1
    } else {
        0
    }
}

/// The position of the first `.` at or after `from`, or `s.len()`.
pub open spec fn dot_at(s: Seq<char>, from: int) -> int
    decreases s.len() - from,
{
    if from >= s.len() || from < 0 {
        s.len() as int
    } else if s[from] == '.' {
        from
    } else {
        dot_at(s, from + 1)
    }
}

/// The digits of an amount's text before its decimal point.
pub open spec fn whole_digits(s: Seq<char>) -> Seq<char> {
    s.subrange(sign_len(s), dot_at(s, sign_len(s)))
}

/// The digits of an amount's text after its decimal point.
pub open spec fn fraction_digits(s: Seq<char>) -> Seq<char> {
    let d = dot_at(s, sign_len(s));
    if d < s.len() {
        s.subrange(d + 1, s.len() as int)
    } else {
        Seq::empty()
    }
}

/// `10^(4 - k)`: the units that a fraction of `k` digits is scaled by.
pub open spec fn fraction_scale(k: int) -> int {
    if k <= 0 {
        10000
    } else if k == 1 {
        1000
    } else if k == 2 {
        100
    } else if k == 3 {
        10
    } else {
        1
    }
}

/// The units that the digits after the decimal point denote; digits past
/// the fourth are zeros.
pub open spec fn fraction_units(f: Seq<char>) -> int {
    let k = if f.len() < 4 {
        f.len() as int
    } else {
        4
    };
    digits_value(f.subrange(0, k)) * fraction_scale(k)
}

/// Whether `s` is the text of an amount: an optional `-`, one or more
/// digits, and optionally a `.` followed by one or more digits, of which
/// those past the fourth are all `0`.
pub open spec fn is_amount_text(s: Seq<char>) -> bool {
    let f = fraction_digits(s);
    &&& whole_digits(s).len() > 0
    &&& all_digits(whole_digits(s))
    &&& all_digits(f)
    &&& dot_at(s, sign_len(s)) < s.len() ==> f.len() > 0
    &&& forall|i: int| 4 <= i < f.len() ==> #[trigger] f[i] == '0'
}

/// The units that the text of an amount denotes.
pub open spec fn amount_units(s: Seq<char>) -> int {
    let magnitude = digits_value(whole_digits(s)) * UNITS_PER_WHOLE + fraction_units(fraction_digits(s));
    if sign_len(s) == 1 {
        -magnitude
    } else {
        magnitude
    }
}

/// The amount that `s` denotes, where it is the text of an amount that fits.
pub open spec fn parse_amount(s: Seq<char>) -> Option<Money> {
    if is_amount_text(s) && fits(amount_units(s)) {
        Some(Money { units: amount_units(s) as i64 })
    } else {
        None
    }
}

/// `10^min(k, 4)`: a bound on what `k` fraction digits can denote.
pub open spec fn fraction_limit(k: int) -> int {
    if k <= 0 {
        1
    } else if k == 1 {
        10
    } else if k == 2 {
        100
    } else if k == 3 {
        1000
    } else {
        10000
    }
}

/// A prefix of a string of digits denotes no more than the whole.
proof fn lemma_prefix_value(s: Seq<char>, k: int)
    requires
        all_digits(s),
        0 <= k <= s.len(),
    ensures
        0 <= digits_value(s.subrange(0, k)) <= digits_value(s),
    decreases s.len(),
{
    if k < s.len() {
        let t = s.drop_last();
        assert(t.subrange(0, k) =~= s.subrange(0, k));
        assert(all_digits(t));
        lemma_prefix_value(t, k);
        assert(is_digit(s[s.len() - 1]));
    } else {
        assert(s.subrange(0, k) =~= s);
        lemma_value_nonneg(s);
    }
}

proof fn lemma_fraction_nonneg(f: Seq<char>)
    requires
        all_digits(f),
    ensures
        0 <= fraction_units(f),
{
    let k = if f.len() < 4 {
        f.len() as int
    } else {
        4
    };
    assert(all_digits(f.subrange(0, k)));
    lemma_value_nonneg(f.subrange(0, k));
}

proof fn lemma_value_nonneg(s: Seq<char>)
    requires
        all_digits(s),
    ensures
        0 <= digits_value(s),
    decreases s.len(),
{
    if s.len() > 0 {
        let t = s.drop_last();
        assert(all_digits(t));
        lemma_value_nonneg(t);
        assert(is_digit(s[s.len() - 1]));
    }
}

impl View for Money {
    type V = int;

    open spec fn view(&self) -> int {
        self.units as int
    }
}

impl Money {
    /// The amount zero.
    pub fn zero() -> (r: Money)
        ensures
            r@ == 0,
    {
        Money { units: 0 }
    }

    /// The amount of `units` ten-thousandths.
    pub fn from_units(units: i64) -> (r: Money)
        ensures
            r@ == units,
    {
        Money { units }
    }

    /// Reads the text of an amount, such as `-12.5` or `0.0003`: an optional
    /// `-`, one or more digits, and optionally a `.` and one or more digits,
    /// those past the fourth being `0`. `None` where `text` has another form
    /// or the amount does not fit.
    pub fn parse(text: &str) -> (r: Option<Money>)
        ensures
            r == parse_amount(text@),
    {
        let ghost s = text@;
        let n = text.unicode_len();
        let start: usize = if n > 0 && text.get_char(0) == '-' {
            1
        } else {
            0
        };
        assert(start as int == sign_len(s));
        let mut d: usize = start;
        while d < n && text.get_char(d) != '.'
            invariant
                start <= d <= n,
                n == s.len(),
                s == text@,
                dot_at(s, d as int) == dot_at(s, start as int),
            decreases n - d,
        {
            d = d + 1;
        }
        assert(d == dot_at(s, start as int));
        assert(whole_digits(s) =~= s.subrange(start as int, d as int));
        if d == start {
            return None;
        }
        let mut whole: i128 = 0;
        let mut i: usize = start;
        while i < d
            invariant
                start <= i <= d <= n,
                n == s.len(),
                s == text@,
                start == sign_len(s),
                d == dot_at(s, sign_len(s)),
                whole_digits(s) == s.subrange(start as int, d as int),
                all_digits(s.subrange(start as int, i as int)),
                whole == digits_value(s.subrange(start as int, i as int)),
                0 <= whole <= 1_000_000_000_000_000,
            decreases d - i,
        {
            let c = text.get_char(i);
            assert(whole_digits(s)[i - start] == c);
            if c < '0' || c > '9' {
                return None;
            }
            assert(s.subrange(start as int, i + 1).drop_last() =~= s.subrange(
                start as int,
                i as int,
            ));
            whole = whole * 10 + ((c as u32) - ('0' as u32)) as i128;
            i = i + 1;
            if whole > 1_000_000_000_000_000 {
                proof {
                    if is_amount_text(s) {
                        let w = whole_digits(s);
                        assert(w.subrange(0, i - start) =~= s.subrange(start as int, i as int));
                        lemma_prefix_value(w, i - start);
                        lemma_fraction_nonneg(fraction_digits(s));
                    }
                }
                return None;
            }
        }
        let ghost f = fraction_digits(s);
        let mut frac: i128 = 0;
        let mut k: usize = 0;
        if d < n {
            assert(f =~= s.subrange(d + 1, n as int));
            if d + 1 == n {
                return None;
            }
            let mut j: usize = d + 1;
            while j < n
                invariant
                    d + 1 <= j <= n,
                    n == s.len(),
                    s == text@,
                    f == s.subrange(d + 1, n as int),
                    f == fraction_digits(s),
                    k == j - (d + 1),
                    all_digits(f.subrange(0, k as int)),
                    forall|m: int| 4 <= m < k ==> #[trigger] f[m] == '0',
                    frac == digits_value(
                        f.subrange(
                            0,
                            if k < 4 {
                                k as int
                            } else {
                                4
                            },
                        ),
                    ),
                    0 <= frac < fraction_limit(k as int),
                decreases n - j,
            {
                let c = text.get_char(j);
                assert(f[k as int] == c);
                if c < '0' || c > '9' {
                    return None;
                }
                if k < 4 {
                    assert(f.subrange(0, k + 1).drop_last() =~= f.subrange(0, k as int));
                    frac = frac * 10 + ((c as u32) - ('0' as u32)) as i128;
                } else if c != '0' {
                    return None;
                }
                assert(f.subrange(0, k + 1) =~= f.subrange(0, k as int).push(c));
                j = j + 1;
                k = k + 1;
            }
        } else {
            assert(f =~= Seq::<char>::empty());
        }
        assert(f.len() == k);
        assert(f.subrange(0, k as int) =~= f);
        let scale: i128 = if k == 0 {
            10000
        } else if k == 1 {
            1000
        } else if k == 2 {
            100
        } else if k == 3 {
            10
        } else {
            1
        };
        assert(0 <= frac < 10000);
        assert(0 <= frac * scale <= 100_000_000) by (nonlinear_arith)
            requires
                0 <= frac < 10000,
                1 <= scale <= 10000,
        ;
        let per_whole = UNITS_PER_WHOLE as i128;
        assert(0 <= whole * per_whole <= 10_000_000_000_000_000_000) by (nonlinear_arith)
            requires
                0 <= whole <= 1_000_000_000_000_000,
                per_whole == 10000,
        ;
        let magnitude = whole * per_whole + frac * scale;
        let units: i128 = if start == 1 {
            -magnitude
        } else {
            magnitude
        };
        assert(units == amount_units(s));
        if units < i64::MIN as i128 || units > i64::MAX as i128 {
            return None;
        }
        Some(Money { units: units as i64 })
    }

    /// The amount in ten-thousandths.
    pub fn units(&self) -> (r: i64)
        ensures
            r == self@,
    {
        self.units
    }

    /// Exact addition; `None` where the sum does not fit.
    pub fn checked_add(self, other: Money) -> (r: Option<Money>)
        ensures
            r == sum(self, other),
    {
        match self.units.checked_add(other.units) {
            Some(u) => Some(Money { units: u }),
            None => None,
        }
    }

    /// Exact subtraction; `None` where the difference does not fit.
    pub fn checked_sub(self, other: Money) -> (r: Option<Money>)
        ensures
            r == difference(self, other),
    {
        match self.units.checked_sub(other.units) {
            Some(u) => Some(Money { units: u }),
            None => None,
        }
    }
}

} // verus!
