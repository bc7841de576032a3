use vstd::prelude::*;

use crate::text::{
    all_digits, chars_of, digit_char, digit_to_char, digits_of, digits_value, is_digit, is_i64,
    lemma_digit_char, lemma_digits_concat, lemma_digits_of, lemma_trimmed_unchanged, parse_signed,
    pow10, render_digits, signed_value, string_of, trim, trimmed,
};

verus! {

/// The number of scaled units in one whole unit of money: four fractional digits.
pub const SCALE: i64 = 10000;

/// A signed fixed-point amount of money with four fractional digits,
/// stored as an integer count of ten-thousandths.
#[derive(Debug, Clone, Copy, PartialEq, Eq, Structural)]
pub struct Amount {
    pub store: i64,
}

/// A failure to read an amount or to compute with amounts.
#[derive(Debug, Clone)]
pub enum AmountError {
    /// The text (after trimming) is not an amount.
    Parse(String),
    /// The result is above the largest representable amount.
    Overflow,
    /// The result is below the smallest representable amount.
    Underflow,
}

/// What a text, already trimmed, says as an amount.
pub enum AmountText {
    /// The scaled value that it writes.
    Scaled(int),
    /// It is not an amount.
    Malformed,
    /// It writes a whole number that fits an `i64` but overflows once scaled.
    ScaleOverflow,
}

/// The index of the first `.` in `t`, which holds one.
pub open spec fn first_dot(t: Seq<char>) -> int
    recommends
        t.contains('.'),
{
    choose|p: int| 0 <= p < t.len() && t[p] == '.' && forall|k: int| 0 <= k < p ==> t[k] != '.'
}

/// The first four fraction digits of `f`, right-padded with `'0'` where it has fewer.
pub open spec fn four_digits(f: Seq<char>) -> Seq<char> {
    if f.len() >= 4 {
        f.subrange(0, 4)
    } else {
        f + Seq::new((4 - f.len()) as nat, |_i: int| '0')
    }
}

/// How the trimmed text `t` reads as an amount. Without a `.` it is a whole
/// number, scaled by ten thousand. With one `.`, an empty integer part reads
/// as `0`, the fraction must be digits only, and the integer part followed by
/// the fraction cut or padded to four digits is read as the scaled value.
pub open spec fn read_amount(t: Seq<char>) -> AmountText {
    if t.len() == 0 {
        AmountText::Malformed
    } else if !t.contains('.') {
        match signed_value(t) {
            Some(v) => if !is_i64(v) {
                AmountText::Malformed
            } else if is_i64(v * SCALE) {
                AmountText::Scaled(v * SCALE)
            } else {
                AmountText::ScaleOverflow
            },
            None => AmountText::Malformed,
        }
    } else {
        let p = first_dot(t);
        let left = t.subrange(0, p);
        let frac = t.subrange(p + 1, t.len() as int);
        let whole = if left.len() == 0 { seq!['0'] } else { left };
        if frac.contains('.') || !all_digits(frac) {
            AmountText::Malformed
        } else {
            match signed_value(whole + four_digits(frac)) {
                Some(v) => if is_i64(v) {
                    AmountText::Scaled(v)
                } else {
                    AmountText::Malformed
                },
                None => AmountText::Malformed,
            }
        }
    }
}

/// The four digits of a fraction `f` of ten-thousandths, zero-padded.
pub open spec fn fraction_digits(f: int) -> Seq<char> {
    seq![digit_char(f / 1000), digit_char(f / 100 % 10), digit_char(f / 10 % 10), digit_char(f % 10)]
}

/// The text of the scaled value `v`: `-` for a negative value, the integer
/// part, `.`, and the fraction as four digits.
pub open spec fn format_amount(v: int) -> Seq<char> {
    let m = if v < 0 { -v } else { v };
    let sign = if v < 0 { seq!['-'] } else { Seq::<char>::empty() };
    sign + digits_of((m / 10000) as nat) + seq!['.'] + fraction_digits(m % 10000)
}

/// Whether `r` is what reading `text` as an amount gives: the value, `Parse`
/// with the trimmed text, or `Overflow`.
pub open spec fn reads_as(text: Seq<char>, r: Result<Amount, AmountError>) -> bool {
    match read_amount(trimmed(text)) {
        AmountText::Scaled(v) => r == Ok::<Amount, AmountError>(Amount { store: v as i64 }),
        AmountText::Malformed => {
            &&& r is Err
            &&& r->Err_0 is Parse
            &&& r->Err_0->Parse_0@ == trimmed(text)
        },
        AmountText::ScaleOverflow => r == Err::<Amount, AmountError>(AmountError::Overflow),
    }
}

/// The four fraction digits write the fraction.
proof fn lemma_fraction_digits(f: int)
    requires
        0 <= f < 10000,
    ensures
        all_digits(fraction_digits(f)),
        digits_value(fraction_digits(f)) == f,
        fraction_digits(f).len() == 4,
{
    let s = fraction_digits(f);
    lemma_digit_char(f / 1000);
    lemma_digit_char(f / 100 % 10);
    lemma_digit_char(f / 10 % 10);
    lemma_digit_char(f % 10);
    let s1 = seq![s[0]];
    let s2 = s1.push(s[1]);
    let s3 = s2.push(s[2]);
    assert(s1.drop_last() =~= Seq::<char>::empty());
    assert(digits_value(Seq::<char>::empty()) == 0);
    assert(s1.last() == s[0]);
    assert(digits_value(s1) == f / 1000);
    assert(s2.drop_last() =~= s1);
    assert(digits_value(s2) == f / 100);
    assert(s3.drop_last() =~= s2);
    assert(digits_value(s3) == f / 10);
    assert(s.drop_last() =~= s3);
}

/// Formatting an amount and reading the text back gives the same amount.
pub proof fn lemma_round_trip(a: Amount)
    ensures
        reads_as(format_amount(a@), Ok(a)),
{
    let v = a@;
    let m = if v < 0 { -v } else { v };
    let q = m / 10000;
    let f = m % 10000;
    let sign = if v < 0 { seq!['-'] } else { Seq::<char>::empty() };
    let d = digits_of(q as nat);
    let fr = fraction_digits(f);
    let left = sign + d;
    let text = format_amount(v);
    lemma_digits_of(q as nat);
    lemma_fraction_digits(f);
    assert(text =~= left + seq!['.'] + fr);
    // Trimming leaves the text unchanged.
    assert(is_digit(fr[3]));
    assert(text.last() == fr[3]);
    assert(is_digit(d[0]));
    assert(text[0] == if v < 0 { '-' } else { d[0] });
    lemma_trimmed_unchanged(text);
    // The first `.` stands right after the integer part, and the fraction holds none.
    let p = left.len() as int;
    assert(text[p] == '.');
    assert(text.contains('.'));
    assert forall|k: int| 0 <= k < p implies text[k] != '.' by {
        assert(text[k] == left[k]);
        if v < 0 && k > 0 {
            assert(left[k] == d[k - 1]);
        }
    }
    assert(first_dot(text) == p);
    assert(text.subrange(0, p) =~= left);
    assert(text.subrange(p + 1, text.len() as int) =~= fr);
    assert(!fr.contains('.')) by {
        if fr.contains('.') {
            let k = choose|k: int| 0 <= k < fr.len() && fr[k] == '.';
            assert(is_digit(fr[k]));
        }
    }
    assert(four_digits(fr) =~= fr);
    // The digits read back as the magnitude.
    lemma_digits_concat(d, fr);
    assert(pow10(4) == 10000) by {
        assert(pow10(1) == 10 * pow10(0));
        assert(pow10(2) == 10 * pow10(1));
        assert(pow10(3) == 10 * pow10(2));
        assert(pow10(4) == 10 * pow10(3));
    }
    assert(digits_value(d + fr) == m);
    assert(all_digits(d + fr)) by {
        assert forall|i: int| 0 <= i < (d + fr).len() implies is_digit(#[trigger] (d + fr)[i]) by {
            if i < d.len() {
                assert((d + fr)[i] == d[i]);
            } else {
                assert((d + fr)[i] == fr[i - d.len()]);
            }
        }
    }
    if v < 0 {
        assert((left + fr).drop_first() =~= d + fr);
        assert(signed_value(left + fr) == Some(-m));
    } else {
        assert(left + fr =~= d + fr);
        assert(signed_value(left + fr) == Some(m));
    }
    assert(read_amount(text) == AmountText::Scaled(v));
}

impl View for Amount {
    type V = int;

    /// The scaled value: the amount times ten thousand.
    open spec fn view(&self) -> int {
        self.store as int
    }
}

impl Amount {
    /// The zero amount.
    pub fn new() -> (r: Amount)
        ensures
            r@ == 0,
    {
        Amount { store: 0 }
    }

    /// Checked addition; fails with `Overflow` when the sum leaves the representable range.
    pub fn add(&self, other: &Amount) -> (r: Result<Amount, AmountError>)
        ensures
            is_i64(self@ + other@) ==> r == Ok::<Amount, AmountError>(Amount { store: (self@ + other@) as i64 }),
            !is_i64(self@ + other@) ==> r == Err::<Amount, AmountError>(AmountError::Overflow),
    {
        match self.store.checked_add(other.store) {
            Some(total) => Ok(Amount { store: total }),
            None => Err(AmountError::Overflow),
        }
    }

    /// Checked subtraction; fails with `Underflow` when the difference leaves the representable range.
    pub fn sub(&self, other: &Amount) -> (r: Result<Amount, AmountError>)
        ensures
            is_i64(self@ - other@) ==> r == Ok::<Amount, AmountError>(Amount { store: (self@ - other@) as i64 }),
            !is_i64(self@ - other@) ==> r == Err::<Amount, AmountError>(AmountError::Underflow),
    {
        match self.store.checked_sub(other.store) {
            Some(total) => Ok(Amount { store: total }),
            None => Err(AmountError::Underflow),
        }
    }

    /// The amount as text, with exactly four fractional digits.
    pub fn to_string(&self) -> (r: String)
        ensures
            r@ == format_amount(self@),
    {
        let v = self.store;
        let m: u64 = if v < 0 { ((-(v + 1)) as u64) + 1 } else { v as u64 };
        let scale = SCALE as u64;
        let mut out: Vec<char> = Vec::new();
        if v < 0 {
            out.push('-');
        }
        let mut int_part = render_digits(m / scale);
        out.append(&mut int_part);
        out.push('.');
        let f = m % scale;
        out.push(digit_to_char(f / 1000));
        out.push(digit_to_char(f / 100 % 10));
        out.push(digit_to_char(f / 10 % 10));
        out.push(digit_to_char(f % 10));
        assert(out@ =~= format_amount(self@));
        string_of(&out)
    }

    /// Reads an amount from text: surrounding whitespace is ignored, and
    /// digits past the fourth fractional one are dropped.
    pub fn from_str(s: &str) -> (r: Result<Amount, AmountError>)
        ensures
            reads_as(s@, r),
    {
        let t = trim(s);
        let cs = chars_of(t);
        let n = cs.len();
        if n == 0 {
            return Err(AmountError::Parse(t.to_owned()));
        }
        let mut p: usize = 0;
        while p < n && cs[p] != '.'
            invariant
                p <= n,
                n == cs.len(),
                forall|k: int| 0 <= k < p ==> cs@[k] != '.',
            decreases n - p,
        {
            p = p + 1;
        }
        if p == n {
            assert(!cs@.contains('.'));
            match parse_signed(&cs) {
                Some(v) => match v.checked_mul(SCALE) {
                    Some(x) => Ok(Amount { store: x }),
                    None => Err(AmountError::Overflow),
                },
                None => Err(AmountError::Parse(t.to_owned())),
            }
        } else {
            let ghost tc = cs@;
            assert(tc.contains('.'));
            assert(first_dot(tc) == p) by {
                let q = first_dot(tc);
                assert(0 <= q < tc.len() && tc[q] == '.' && forall|k: int| 0 <= k < q ==> tc[k] != '.');
                if q < p {
                    assert(tc[q] != '.');
                }
                if q > p {
                    assert(tc[p as int] != '.');
                }
            }
            let ghost left = tc.subrange(0, p as int);
            let ghost frac = tc.subrange(p + 1, n as int);
            let ghost whole = if left.len() == 0 { seq!['0'] } else { left };
            let mut combined: Vec<char> = Vec::new();
            if p == 0 {
                combined.push('0');
            } else {
                let mut i: usize = 0;
                while i < p
                    invariant
                        i <= p,
                        p < n,
                        n == cs.len(),
                        combined@ == cs@.subrange(0, i as int),
                    decreases p - i,
                {
                    combined.push(cs[i]);
                    i = i + 1;
                }
            }
            assert(combined@ == whole);
            let wl = combined.len();
            let mut k: usize = p + 1;
            while k < n
                invariant
                    p < k <= n,
                    n == cs.len(),
                    wl == whole.len(),
                    frac == cs@.subrange(p + 1, n as int),
                    tc == cs@,
                    tc == trimmed(s@),
                    t@ == tc,
                    tc.len() > 0,
                    tc.contains('.'),
                    first_dot(tc) == p,
                    all_digits(cs@.subrange(p + 1, k as int)),
                    combined@ == whole + cs@.subrange(p + 1, if k <= p + 5 { k as int } else { p + 5 }),
                decreases n - k,
            {
                let c = cs[k];
                if c < '0' || c > '9' {
                    assert(!all_digits(frac)) by {
                        assert(frac[k - p - 1] == c);
                    }
                    assert(read_amount(tc) is Malformed);
                    return Err(AmountError::Parse(t.to_owned()));
                }
                if k - p < 5 {
                    combined.push(c);
                }
                k = k + 1;
            }
            assert(cs@.subrange(p + 1, k as int) == frac);
            assert(all_digits(frac));
            assert(combined@ =~= whole + four_digits(frac).subrange(0, combined.len() - wl));
            while combined.len() - wl < 4
                invariant
                    wl <= combined.len() <= wl + 4,
                    wl == whole.len(),
                    combined@ == whole + four_digits(frac).subrange(0, combined.len() - wl),
                    combined.len() - wl >= (if frac.len() < 4 { frac.len() as int } else { 4 }),
                decreases wl + 4 - combined.len(),
            {
                combined.push('0');
                assert(frac.len() < combined.len() - wl);
                assert(combined@ =~= whole + four_digits(frac).subrange(0, combined.len() - wl));
            }
            assert(combined@ =~= whole + four_digits(frac));
            match parse_signed(&combined) {
                Some(v) => Ok(Amount { store: v }),
                None => Err(AmountError::Parse(t.to_owned())),
            }
        }
    }
}

impl core::str::FromStr for Amount {
    type Err = AmountError;

    fn from_str(s: &str) -> Result<Amount, AmountError> {
        Amount::from_str(s)
    }
}

} // verus!
