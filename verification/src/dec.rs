//! Fixed-point decimal values with five decimal digits, the unit in which
//! this bridge keeps beats, seconds and numeric wire arguments. Score rows
//! render times and numbers with exactly five decimals, so the type carries
//! precisely that precision; arithmetic on it is exact within the scale and
//! saturates at the representation's bounds instead of wrapping.
use vstd::prelude::*;

use crate::strutil::{digit_char, spec_u64_digits, u64_to_string, push_char, find_sub,
    first_occ, is_sub_at, lemma_first_occ};

verus! {

/// Number of units per whole one: five decimal digits.
pub const DEC_SCALE: i64 = 100_000;

/// A decimal number stored as `units / 100000`.
#[derive(Clone, Copy, Debug, PartialEq, Eq, Structural)]
pub struct Dec {
    pub units: i64,
}

/// `x` clamped into the `i64` range.
pub open spec fn sat64(x: int) -> int {
    if x > i64::MAX {
        i64::MAX as int
    } else if x < i64::MIN {
        i64::MIN as int
    } else {
        x
    }
}

impl Dec {
    /// The represented value, in units of one hundred-thousandth.
    pub open spec fn view(self) -> int {
        self.units as int
    }

    /// Zero.
    pub fn zero() -> (r: Dec)
        ensures
            r@ == 0,
    {
        Dec { units: 0 }
    }

    /// A whole number of ones.
    pub fn from_int(i: i32) -> (r: Dec)
        ensures
            r@ == i * 100_000,
    {
        Dec { units: (i as i64) * 100_000 }
    }

    /// Raw units.
    pub fn from_units(units: i64) -> (r: Dec)
        ensures
            r@ == units,
    {
        Dec { units }
    }

    pub fn is_zero(self) -> (r: bool)
        ensures
            r == (self@ == 0),
    {
        self.units == 0
    }

    pub fn le(self, o: Dec) -> (r: bool)
        ensures
            r == (self@ <= o@),
    {
        self.units <= o.units
    }

    pub fn lt(self, o: Dec) -> (r: bool)
        ensures
            r == (self@ < o@),
    {
        self.units < o.units
    }

    /// Sum, clamped at the representation's bounds.
    pub fn plus(self, o: Dec) -> (r: Dec)
        ensures
            r@ == sat64(self@ + o@),
    {
        let wide: i128 = (self.units as i128) + (o.units as i128);
        if wide > i64::MAX as i128 {
            Dec { units: i64::MAX }
        } else if wide < i64::MIN as i128 {
            Dec { units: i64::MIN }
        } else {
            Dec { units: wide as i64 }
        }
    }

    /// Whole milliseconds of a non-negative time value, rounded down.
    pub fn to_millis(self) -> (r: u64)
        requires
            self@ >= 0,
        ensures
            r == self@ / 100,
    {
        (self.units / 100) as u64
    }

    /// Rendering with exactly five decimal digits, as score rows use.
    pub fn to_string5(self) -> (r: String)
        ensures
            r@ == spec_dec_str(self@),
    {
        let mag: u64 = if self.units < 0 {
            if self.units == i64::MIN {
                9223372036854775808u64
            } else {
                (-self.units) as u64
            }
        } else {
            self.units as u64
        };
        let whole: u64 = mag / 100_000;
        let frac: u64 = mag % 100_000;
        let mut out = String::new();
        if self.units < 0 {
            push_char(&mut out, '-');
        }
        let digits = u64_to_string(whole);
        out.append(digits.as_str());
        push_char(&mut out, '.');
        push_char(&mut out, ((48 + (frac / 10_000) % 10) as u8) as char);
        push_char(&mut out, ((48 + (frac / 1_000) % 10) as u8) as char);
        push_char(&mut out, ((48 + (frac / 100) % 10) as u8) as char);
        push_char(&mut out, ((48 + (frac / 10) % 10) as u8) as char);
        push_char(&mut out, ((48 + frac % 10) as u8) as char);
        proof {
            assert(out@ =~= spec_dec_str(self@));
        }
        out
    }
}

/// Five zero-padded decimal digits of `f`, which is below `100000`.
pub open spec fn spec_frac5(f: int) -> Seq<char> {
    seq![
        digit_char((f / 10_000) % 10),
        digit_char((f / 1_000) % 10),
        digit_char((f / 100) % 10),
        digit_char((f / 10) % 10),
        digit_char(f % 10),
    ]
}

/// Rendering of a `Dec` value given in units: optional sign, the whole
/// part, a dot, and exactly five decimal digits.
pub open spec fn spec_dec_str(u: int) -> Seq<char> {
    if u < 0 {
        seq!['-'] + spec_u64_digits(((-u) / 100_000) as nat) + seq!['.'] + spec_frac5((-u) % 100_000)
    } else {
        spec_u64_digits((u / 100_000) as nat) + seq!['.'] + spec_frac5(u % 100_000)
    }
}

pub open spec fn is_digit(c: char) -> bool {
    '0' <= c && c <= '9'
}

pub open spec fn all_digits(s: Seq<char>) -> bool {
    forall|i: int| 0 <= i < s.len() ==> is_digit(#[trigger] s[i])
}

/// Numeric value of one digit character.
pub open spec fn char_digit(c: char) -> int {
    c as u32 - 48
}

/// Value of a digit string, most significant digit first.
pub open spec fn digits_val(s: Seq<char>) -> int
    decreases s.len(),
{
    if s.len() == 0 {
        0
    } else {
        digits_val(s.drop_last()) * 10 + char_digit(s.last())
    }
}

/// The fractional digit string widened or cut to exactly five digits.
pub open spec fn pad5(fp: Seq<char>) -> Seq<char> {
    if fp.len() >= 5 {
        fp.subrange(0, 5)
    } else {
        fp + Seq::new((5 - fp.len()) as nat, |i: int| '0')
    }
}

/// The accepted non-negative decimal time literal: one to thirteen whole
/// digits, optionally followed by a dot and at least one fractional digit.
/// Fractional digits beyond the scale's five are read and ignored.
pub open spec fn valid_dec_literal(s: Seq<char>) -> bool {
    match first_occ(s, seq!['.']) {
        None => 1 <= s.len() <= 13 && all_digits(s),
        Some(k) => {
            &&& 1 <= k <= 13
            &&& all_digits(s.subrange(0, k))
            &&& k + 1 < s.len()
            &&& all_digits(s.subrange(k + 1, s.len() as int))
        },
    }
}

/// Units denoted by a valid literal.
pub open spec fn spec_dec_value(s: Seq<char>) -> int {
    match first_occ(s, seq!['.']) {
        None => digits_val(s) * 100_000,
        Some(k) => digits_val(s.subrange(0, k)) * 100_000 + digits_val(
            pad5(s.subrange(k + 1, s.len() as int)),
        ),
    }
}

/// A valid literal denotes a non-negative value.
pub proof fn lemma_dec_value_nonneg(s: Seq<char>)
    requires
        valid_dec_literal(s),
    ensures
        spec_dec_value(s) >= 0,
{
    match first_occ(s, seq!['.']) {
        None => {
            lemma_digits_val_bound(s, 13);
        },
        Some(k) => {
            lemma_digits_val_bound(s.subrange(0, k), 13);
            let fp = s.subrange(k + 1, s.len() as int);
            let p5 = pad5(fp);
            assert(all_digits(p5)) by {
                assert(forall|t: int| 0 <= t < p5.len() ==> is_digit(#[trigger] p5[t])) by {
                    assert forall|t: int| 0 <= t < p5.len() implies is_digit(#[trigger] p5[t]) by {
                        if t < fp.len() && t < 5 {
                            assert(p5[t] == fp[t]);
                        } else {
                            assert(p5[t] == '0');
                        }
                    }
                }
            }
            lemma_digits_val_bound(p5, 5);
        },
    }
}

/// A digit string's value is below ten to its length.
proof fn lemma_digits_val_bound(s: Seq<char>, cap: int)
    requires
        all_digits(s),
        s.len() <= cap,
    ensures
        0 <= digits_val(s) < pow10(cap),
    decreases s.len(),
{
    lemma_pow10_mono(s.len() as int, cap);
    if s.len() == 0 {
        lemma_pow10_pos(cap);
    } else {
        let pre = s.drop_last();
        assert(all_digits(pre));
        lemma_digits_val_bound(pre, s.len() - 1);
        lemma_pow10_pos(s.len() - 1);
        assert(pow10(s.len() as int) == 10 * pow10(s.len() - 1));
    }
}

pub open spec fn pow10(n: int) -> int
    decreases n,
{
    if n <= 0 {
        1
    } else {
        10 * pow10(n - 1)
    }
}

proof fn lemma_pow10_pos(n: int)
    ensures
        pow10(n) >= 1,
    decreases n,
{
    if n > 0 {
        lemma_pow10_pos(n - 1);
    }
}

proof fn lemma_pow10_mono(a: int, b: int)
    requires
        a <= b,
    ensures
        pow10(a) <= pow10(b),
    decreases b - a,
{
    if a < b {
        lemma_pow10_mono(a, b - 1);
        lemma_pow10_pos(b - 1);
    }
}

proof fn lemma_pow10_13()
    ensures
        pow10(13) == 10_000_000_000_000,
{
    assert(pow10(0) == 1);
    assert(pow10(1) == 10);
    assert(pow10(2) == 100);
    assert(pow10(3) == 1000);
    assert(pow10(4) == 10000);
    assert(pow10(5) == 100000);
    assert(pow10(6) == 1000000);
    assert(pow10(7) == 10000000);
    assert(pow10(8) == 100000000);
    assert(pow10(9) == 1000000000);
    assert(pow10(10) == 10000000000);
    assert(pow10(11) == 100000000000);
    assert(pow10(12) == 1000000000000);
    assert(pow10(13) == 10000000000000);
}

/// Value of the digits of `s` in `lo..hi`, read by a left-to-right scan:
/// returns the accumulated value. Errs on the first non-digit.
fn scan_digits(s: &str, lo: usize, hi: usize, limit: usize) -> (r: Option<u64>)
    requires
        lo <= hi <= s@.len(),
        hi - lo <= limit,
        limit <= 13,
    ensures
        match r {
            Some(v) => all_digits(s@.subrange(lo as int, hi as int)) && v == digits_val(
                s@.subrange(lo as int, hi as int),
            ),
            None => !all_digits(s@.subrange(lo as int, hi as int)),
        },
{
    let mut acc: u64 = 0;
    let mut i: usize = lo;
    proof {
        lemma_pow10_13();
    }
    while i < hi
        invariant
            lo <= i <= hi <= s@.len(),
            hi - lo <= limit <= 13,
            pow10(13) == 10_000_000_000_000,
            all_digits(s@.subrange(lo as int, i as int)),
            acc == digits_val(s@.subrange(lo as int, i as int)),
            acc < pow10(13),
        decreases hi - i,
    {
        let c = s.get_char(i);
        if c < '0' || c > '9' {
            proof {
                assert(s@.subrange(lo as int, hi as int)[i - lo] == s@[i as int]);
            }
            return None;
        }
        let d: u64 = ((c as u8) - 48) as u64;
        proof {
            let pre = s@.subrange(lo as int, i as int);
            let ext = s@.subrange(lo as int, i + 1);
            assert(ext.drop_last() =~= pre);
            assert(ext.last() == s@[i as int]);
            lemma_digits_val_bound(ext, 13);
        }
        acc = acc * 10 + d;
        i = i + 1;
    }
    Some(acc)
}

impl Dec {
    /// Parse of a non-negative decimal time literal: whole digits, with an
    /// optional dot and fraction; the value is truncated to the scale's five
    /// fractional digits. Exactly the valid literals are accepted.
    pub fn from_decimal_str(s: &str) -> (r: Result<Dec, String>)
        ensures
            match r {
                Ok(d) => valid_dec_literal(s@) && d@ == spec_dec_value(s@),
                Err(_) => !valid_dec_literal(s@),
            },
    {
        proof {
            reveal_strlit(".");
            assert("."@ =~= seq!['.']);
            lemma_pow10_13();
        }
        let len = s.unicode_len();
        let dot = find_sub(s, ".");
        match dot {
            None => {
                if len < 1 || len > 13 {
                    return Err("time literal must have 1 to 13 whole digits".to_owned());
                }
                match scan_digits(s, 0, len, 13) {
                    None => {
                        proof {
                            assert(s@.subrange(0, len as int) =~= s@);
                        }
                        Err("time literal holds a non-digit".to_owned())
                    },
                    Some(v) => {
                        proof {
                            assert(s@.subrange(0, len as int) =~= s@);
                            lemma_digits_val_bound(s@, 13);
                        }
                        Ok(Dec { units: (v as i64) * 100_000 })
                    },
                }
            },
            Some(k) => {
                proof {
                    lemma_first_occ(s@, seq!['.']);
                    assert(is_sub_at(s@, seq!['.'], k as int));
                    assert(s@.subrange(k as int, k + 1)[0] == s@[k as int]);
                    assert(s@[k as int] == '.');
                }
                if k < 1 || k > 13 {
                    return Err("time literal must have 1 to 13 whole digits".to_owned());
                }
                if k + 1 >= len {
                    return Err("time literal ends at the dot".to_owned());
                }
                let whole = match scan_digits(s, 0, k, 13) {
                    None => {
                        proof {
                            assert(first_occ(s@, seq!['.']) == Some(k as int));
                            assert(!all_digits(s@.subrange(0, k as int)));
                        }
                        return Err("time literal holds a non-digit".to_owned());
                    },
                    Some(v) => v,
                };
                // every fractional digit must be a digit, however many there are
                let mut i: usize = k + 1;
                while i < len
                    invariant
                        k + 1 <= i <= len,
                        len == s@.len(),
                        1 <= k <= 13,
                        k + 1 < len,
                        first_occ(s@, seq!['.']) == Some(k as int),
                        forall|j: int| k + 1 <= j < i ==> is_digit(#[trigger] s@[j]),
                    decreases len - i,
                {
                    let c = s.get_char(i);
                    if c < '0' || c > '9' {
                        proof {
                            let fp = s@.subrange(k + 1, len as int);
                            assert(fp[i - (k + 1)] == s@[i as int]);
                            assert(!all_digits(fp));
                        }
                        return Err("time literal holds a non-digit".to_owned());
                    }
                    i = i + 1;
                }
                // value of the first five fractional digits, zero-padded
                let mut fv: u64 = 0;
                let mut j: usize = 0;
                while j < 5
                    invariant
                        j <= 5,
                        len == s@.len(),
                        k <= 13,
                        k + 1 < len,
                        forall|t: int| k + 1 <= t < len ==> is_digit(#[trigger] s@[t]),
                        all_digits(pad5(s@.subrange(k + 1, len as int)).subrange(0, j as int)),
                        fv == digits_val(pad5(s@.subrange(k + 1, len as int)).subrange(0, j as int)),
                        fv < 100_000,
                    decreases 5 - j,
                {
                    let ghost fp = s@.subrange(k + 1, len as int);
                    let ghost p5 = pad5(fp);
                    let d: u64 = if k + 1 + j < len {
                        let c = s.get_char(k + 1 + j);
                        ((c as u8) - 48) as u64
                    } else {
                        0
                    };
                    proof {
                        assert(p5.len() == 5);
                        if j < fp.len() {
                            assert(p5[j as int] == fp[j as int]);
                            assert(fp[j as int] == s@[k + 1 + j]);
                        } else {
                            assert(p5[j as int] == '0');
                        }
                        let pre = p5.subrange(0, j as int);
                        let ext = p5.subrange(0, j + 1);
                        assert(ext.drop_last() =~= pre);
                        assert(ext.last() == p5[j as int]);
                        assert(is_digit(p5[j as int]));
                        assert(char_digit(p5[j as int]) < 10);
                        assert(forall|t: int| 0 <= t < ext.len() ==> ext[t] == p5.subrange(
                            0,
                            j + 1,
                        )[t]);
                        assert(all_digits(ext));
                        assert(pow10(0) == 1);
                        assert(pow10(1) == 10);
                        assert(pow10(2) == 100);
                        assert(pow10(3) == 1000);
                        assert(pow10(4) == 10000);
                        assert(pow10(5) == 100000);
                        lemma_digits_val_bound(ext, 5);
                    }
                    fv = fv * 10 + d;
                    j = j + 1;
                }
                proof {
                    let fp = s@.subrange(k + 1, len as int);
                    assert(pad5(fp).subrange(0, 5) =~= pad5(fp));
                    assert(all_digits(fp));
                    assert(all_digits(s@.subrange(0, k as int)));
                    lemma_digits_val_bound(s@.subrange(0, k as int), 13);
                }
                Ok(Dec { units: (whole as i64) * 100_000 + (fv as i64) })
            },
        }
    }
}

} // verus!
