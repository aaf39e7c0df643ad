//! Number literals, kept exactly as decimal digit strings.
//!
//! A literal is read as written and brought to one canonical form, so that
//! `22`, `22.0` and `022.00` are the same number. No rounding ever happens
//! here: turning a literal into a machine number is left to the numeric
//! back end, which gets the canonical text.
use crate::text::chars_of;
use crate::text::string_of;
use vstd::prelude::*;
use vstd::string::StringExecFns;

verus! {

pub open spec fn is_digit(c: char) -> bool {
    '0' <= c && c <= '9'
}

pub open spec fn all_digits(s: Seq<char>) -> bool {
    forall|i: int| 0 <= i < s.len() ==> is_digit(#[trigger] s[i])
}

/// `s` without its leading zeros, except that one digit always stays.
pub open spec fn strip_leading(s: Seq<char>) -> Seq<char>
    decreases s.len(),
{
    if s.len() > 1 && s[0] == '0' {
        strip_leading(s.skip(1))
    } else {
        s
    }
}

/// `s` without its trailing zeros, except that one digit always stays.
pub open spec fn strip_trailing(s: Seq<char>) -> Seq<char>
    decreases s.len(),
{
    if s.len() > 1 && s.last() == '0' {
        strip_trailing(s.drop_last())
    } else {
        s
    }
}

/// The mathematical content of a `Decimal`: the digits before and after the
/// decimal point.
pub struct Numeral {
    pub whole: Seq<char>,
    pub fraction: Seq<char>,
}

impl Numeral {
    /// Both parts are non-empty digit strings, the whole part has no needless
    /// leading zero and the fraction no needless trailing zero.
    pub open spec fn canonical(self) -> bool {
        &&& self.whole.len() >= 1
        &&& all_digits(self.whole)
        &&& self.whole.len() > 1 ==> self.whole[0] != '0'
        &&& self.fraction.len() >= 1
        &&& all_digits(self.fraction)
        &&& self.fraction.len() > 1 ==> self.fraction.last() != '0'
    }

    /// The canonical numeral for the digits `whole` before the point and
    /// `fraction` after it; `fraction` is empty where the literal has no point.
    pub open spec fn of(whole: Seq<char>, fraction: Seq<char>) -> Numeral {
        Numeral {
            whole: strip_leading(whole),
            fraction: if fraction.len() == 0 {
                seq!['0']
            } else {
                strip_trailing(fraction)
            },
        }
    }

    /// The numeral written out: whole part, point, fraction.
    pub open spec fn text(self) -> Seq<char> {
        self.whole + seq!['.'] + self.fraction
    }
}

/// The value of the digit `c`.
pub open spec fn digit_value(c: char) -> nat {
    (c as nat - '0' as nat) as nat
}

/// The natural number that the digits `s` write.
pub open spec fn digits_value(s: Seq<char>) -> nat
    decreases s.len(),
{
    if s.len() == 0 {
        0
    } else {
        digits_value(s.drop_last()) * 10 + digit_value(s.last())
    }
}

/// Ten to the power `n`.
pub open spec fn pow10(n: nat) -> nat
    decreases n,
{
    if n == 0 {
        1
    } else {
        10 * pow10((n - 1) as nat)
    }
}

/// The number that the digits `whole` before the point and `fraction` after
/// it write, times ten to the power `places`. With `places` no less than the
/// number of fraction digits this is a natural number, and it says what the
/// literal is worth.
pub open spec fn scaled_value(whole: Seq<char>, fraction: Seq<char>, places: nat) -> nat {
    digits_value(whole) * pow10(places) + digits_value(fraction) * pow10(
        (places - fraction.len()) as nat,
    )
}

/// Where the run of digits that starts at `from` ends: the first position at
/// or after `from` that holds no digit.
pub open spec fn digit_run(s: Seq<char>, from: int) -> int
    decreases s.len() - from,
{
    if 0 <= from < s.len() && is_digit(s[from]) {
        digit_run(s, from + 1)
    } else {
        from
    }
}

/// The digits before and after the point of a literal of the shape
/// `digit+ ('.' digit+)?`, or `None` where `s` has another shape.
pub open spec fn split_literal(s: Seq<char>) -> Option<(Seq<char>, Seq<char>)> {
    let mid = digit_run(s, 0);
    let end = digit_run(s, mid + 1);
    if mid == 0 {
        None
    } else if mid == s.len() {
        Some((s, Seq::empty()))
    } else if s[mid] == '.' && end == s.len() && mid + 1 < end {
        Some((s.subrange(0, mid), s.subrange(mid + 1, end)))
    } else {
        None
    }
}

/// A digit run holds digits only, stays inside the text and stops at a
/// character that is no digit.
pub proof fn lemma_digit_run(s: Seq<char>, from: int)
    requires
        0 <= from <= s.len(),
    ensures
        from <= digit_run(s, from) <= s.len(),
        all_digits(s.subrange(from, digit_run(s, from))),
        digit_run(s, from) < s.len() ==> !is_digit(s[digit_run(s, from)]),
    decreases s.len() - from,
{
    if from < s.len() && is_digit(s[from]) {
        lemma_digit_run(s, from + 1);
        let end = digit_run(s, from);
        assert forall|i: int| 0 <= i < end - from implies is_digit(
            #[trigger] s.subrange(from, end)[i],
        ) by {
            if i > 0 {
                assert(s.subrange(from + 1, end)[i - 1] == s[from + i]);
            }
        }
    }
}

pub proof fn lemma_strip_leading(s: Seq<char>)
    requires
        s.len() >= 1,
        all_digits(s),
    ensures
        strip_leading(s).len() >= 1,
        all_digits(strip_leading(s)),
        strip_leading(s).len() > 1 ==> strip_leading(s)[0] != '0',
        (s.len() > 1 ==> s[0] != '0') ==> strip_leading(s) == s,
    decreases s.len(),
{
    if s.len() > 1 && s[0] == '0' {
        assert forall|i: int| 0 <= i < s.skip(1).len() implies is_digit(
            #[trigger] s.skip(1)[i],
        ) by {
            assert(s.skip(1)[i] == s[i + 1]);
        }
        lemma_strip_leading(s.skip(1));
    }
}

pub proof fn lemma_strip_trailing(s: Seq<char>)
    requires
        s.len() >= 1,
        all_digits(s),
    ensures
        strip_trailing(s).len() >= 1,
        all_digits(strip_trailing(s)),
        strip_trailing(s).len() > 1 ==> strip_trailing(s).last() != '0',
        (s.len() > 1 ==> s.last() != '0') ==> strip_trailing(s) == s,
    decreases s.len(),
{
    if s.len() > 1 && s.last() == '0' {
        assert forall|i: int| 0 <= i < s.drop_last().len() implies is_digit(
            #[trigger] s.drop_last()[i],
        ) by {
            assert(s.drop_last()[i] == s[i]);
        }
        lemma_strip_trailing(s.drop_last());
    }
}

/// `Numeral::of` always gives a canonical numeral, and gives a canonical
/// numeral's own digits back unchanged.
pub proof fn lemma_numeral_of(whole: Seq<char>, fraction: Seq<char>)
    requires
        whole.len() >= 1,
        all_digits(whole),
        all_digits(fraction),
    ensures
        Numeral::of(whole, fraction).canonical(),
        (Numeral { whole, fraction }).canonical() ==> Numeral::of(whole, fraction) == (Numeral {
            whole,
            fraction,
        }),
{
    lemma_strip_leading(whole);
    if fraction.len() > 0 {
        lemma_strip_trailing(fraction);
    }
}

/// Leading zeros are worth nothing.
pub proof fn lemma_leading_zero(s: Seq<char>)
    requires
        s.len() >= 1,
        s[0] == '0',
    ensures
        digits_value(s.skip(1)) == digits_value(s),
    decreases s.len(),
{
    if s.len() == 1 {
        assert(digits_value(s.drop_last()) == 0);
        assert(digits_value(s.skip(1)) == 0);
        assert(s.last() == '0');
    } else {
        assert(s.drop_last()[0] == '0');
        lemma_leading_zero(s.drop_last());
        assert(s.drop_last().skip(1) =~= s.skip(1).drop_last());
        assert(s.skip(1).last() == s.last());
    }
}

/// Stripping leading zeros leaves the value as it is.
pub proof fn lemma_strip_leading_value(s: Seq<char>)
    ensures
        digits_value(strip_leading(s)) == digits_value(s),
    decreases s.len(),
{
    if s.len() > 1 && s[0] == '0' {
        lemma_leading_zero(s);
        lemma_strip_leading_value(s.skip(1));
    }
}

/// Stripping trailing zeros divides the value by ten for each digit that
/// goes.
pub proof fn lemma_strip_trailing_value(s: Seq<char>)
    ensures
        strip_trailing(s).len() <= s.len(),
        digits_value(s) == digits_value(strip_trailing(s)) * pow10(
            (s.len() - strip_trailing(s).len()) as nat,
        ),
    decreases s.len(),
{
    if s.len() > 1 && s.last() == '0' {
        let rest = s.drop_last();
        let kept = strip_trailing(rest);
        lemma_strip_trailing_value(rest);
        let gone = (rest.len() - kept.len()) as nat;
        assert(pow10(gone + 1) == 10 * pow10(gone));
        assert(digits_value(kept) * pow10(gone) * 10 == digits_value(kept) * (10 * pow10(gone)))
            by (nonlinear_arith);
    } else {
        assert(digits_value(s) * 1 == digits_value(s));
    }
}

/// The canonical numeral of a literal is worth what the literal's own digits
/// are worth: bringing a literal to canonical form changes how the number is
/// written and never the number.
pub proof fn lemma_numeral_value(whole: Seq<char>, fraction: Seq<char>, places: nat)
    requires
        places >= fraction.len(),
        places >= 1,
    ensures
        scaled_value(Numeral::of(whole, fraction).whole, Numeral::of(whole, fraction).fraction, places)
            == scaled_value(whole, fraction, places),
{
    lemma_strip_leading_value(whole);
    if fraction.len() == 0 {
        let zero = seq!['0'];
        assert(digits_value(zero.drop_last()) == 0);
        assert(zero.last() == '0');
        assert(digits_value(zero) == 0);
        assert(digits_value(fraction) == 0);
    } else {
        let kept = strip_trailing(fraction);
        lemma_strip_trailing_value(fraction);
        let gone = (fraction.len() - kept.len()) as nat;
        let rest = (places - fraction.len()) as nat;
        lemma_pow10_sum(gone, rest);
        assert(digits_value(kept) * pow10(gone) * pow10(rest) == digits_value(kept) * (pow10(gone)
            * pow10(rest))) by (nonlinear_arith);
    }
}

/// Ten to the power `a + b` is ten to the power `a` times ten to the power `b`.
pub proof fn lemma_pow10_sum(a: nat, b: nat)
    ensures
        pow10(a + b) == pow10(a) * pow10(b),
    decreases a,
{
    if a == 0 {
        assert(pow10(0) == 1);
    } else {
        lemma_pow10_sum((a - 1) as nat, b);
        assert(10 * (pow10((a - 1) as nat) * pow10(b)) == (10 * pow10((a - 1) as nat)) * pow10(b))
            by (nonlinear_arith);
        assert(pow10(a + b) == 10 * pow10((a + b - 1) as nat));
    }
}

/// An exact decimal number literal in canonical form.
#[derive(PartialEq, Eq, Debug)]
pub struct Decimal {
    whole: String,
    fraction: String,
}

impl View for Decimal {
    type V = Numeral;

    closed spec fn view(&self) -> Numeral {
        Numeral { whole: self.whole@, fraction: self.fraction@ }
    }
}

impl Clone for Decimal {
    fn clone(&self) -> (r: Self)
        ensures
            r@ == self@,
            r@.canonical(),
    {
        proof {
            use_type_invariant(self);
        }
        Decimal { whole: self.whole.clone(), fraction: self.fraction.clone() }
    }
}

/// Whether `c` is one of the ten decimal digits.
pub fn digit(c: char) -> (r: bool)
    ensures
        r == is_digit(c),
{
    '0' <= c && c <= '9'
}

/// Runs over the digits that start at `from`.
pub fn scan_digits(v: &Vec<char>, from: usize) -> (r: usize)
    requires
        from <= v.len(),
    ensures
        r == digit_run(v@, from as int),
        from <= r <= v.len(),
{
    let mut i: usize = from;
    while i < v.len() && digit(v[i])
        invariant
            from <= i <= v.len(),
            digit_run(v@, from as int) == digit_run(v@, i as int),
        decreases v.len() - i,
    {
        i += 1;
    }
    i
}

impl Decimal {
    /// Every `Decimal` is canonical.
    #[verifier::type_invariant]
    closed spec fn inv(&self) -> bool {
        self@.canonical()
    }

    /// Reads the literal whose whole digits are `v[start..mid]` and whose
    /// fraction digits are `v[mid + 1..end]`, with `mid == end` where the
    /// literal has no point.
    pub(crate) fn read(v: &Vec<char>, start: usize, mid: usize, end: usize) -> (r: Decimal)
        requires
            start < mid <= end <= v.len(),
            all_digits(v@.subrange(start as int, mid as int)),
            mid < end ==> mid + 1 < end && all_digits(v@.subrange(mid + 1, end as int)),
        ensures
            r@ == Numeral::of(
                v@.subrange(start as int, mid as int),
                if mid < end {
                    v@.subrange(mid + 1, end as int)
                } else {
                    Seq::empty()
                },
            ),
            r@.canonical(),
    {
        let ghost whole = v@.subrange(start as int, mid as int);
        let mut first: usize = start;
        while first + 1 < mid && v[first] == '0'
            invariant
                start <= first < mid <= v.len(),
                strip_leading(whole) == strip_leading(v@.subrange(first as int, mid as int)),
            decreases mid - first,
        {
            assert(v@.subrange(first as int, mid as int).skip(1) =~= v@.subrange(
                first + 1,
                mid as int,
            ));
            first += 1;
        }
        let whole_text = string_of(v, first, mid);
        let fraction_text = if mid < end {
            let ghost fraction = v@.subrange(mid + 1, end as int);
            let mut last: usize = end;
            while mid + 2 < last && v[last - 1] == '0'
                invariant
                    mid + 1 < last <= end <= v.len(),
                    strip_trailing(fraction) == strip_trailing(
                        v@.subrange(mid + 1, last as int),
                    ),
                decreases last - mid,
            {
                assert(v@.subrange(mid + 1, last as int).drop_last() =~= v@.subrange(
                    mid + 1,
                    last - 1,
                ));
                last -= 1;
            }
            proof {
                lemma_numeral_of(whole, fraction);
            }
            string_of(v, mid + 1, last)
        } else {
            proof {
                lemma_numeral_of(whole, Seq::empty());
            }
            String::from_str("0")
        };
        proof {
            reveal_strlit("0");
            assert("0"@ =~= seq!['0']);
        }
        Decimal { whole: whole_text, fraction: fraction_text }
    }

    /// Reads a literal of the shape `digit+ ('.' digit+)?` that makes up the
    /// whole of `s`; `None` for any other text.
    pub fn from_str(s: &str) -> (r: Option<Decimal>)
        ensures
            match split_literal(s@) {
                Some((whole, fraction)) => r.is_some() && r.unwrap()@ == Numeral::of(
                    whole,
                    fraction,
                ) && r.unwrap()@.canonical(),
                None => r.is_none(),
            },
    {
        let v = chars_of(s);
        let n = v.len();
        let mid = scan_digits(&v, 0);
        proof {
            lemma_digit_run(s@, 0);
        }
        if mid == 0 {
            return None;
        }
        if mid == n {
            assert(v@.subrange(0, n as int) =~= s@);
            return Some(Decimal::read(&v, 0, mid, n));
        }
        if v[mid] != '.' {
            return None;
        }
        let end = scan_digits(&v, mid + 1);
        proof {
            lemma_digit_run(s@, mid + 1);
        }
        if end < n || end == mid + 1 {
            return None;
        }
        Some(Decimal::read(&v, 0, mid, n))
    }

    /// The digits before the decimal point.
    pub fn whole(&self) -> (r: &str)
        ensures
            r@ == self@.whole,
            self@.canonical(),
    {
        proof {
            use_type_invariant(self);
        }
        self.whole.as_str()
    }

    /// The digits after the decimal point.
    pub fn fraction(&self) -> (r: &str)
        ensures
            r@ == self@.fraction,
            self@.canonical(),
    {
        proof {
            use_type_invariant(self);
        }
        self.fraction.as_str()
    }

    /// The canonical text of the literal, such as `22.0` or `0.25`.
    pub fn render(&self) -> (r: String)
        ensures
            r@ == self@.text(),
            self@.canonical(),
    {
        proof {
            use_type_invariant(self);
        }
        let mut out = self.whole.clone();
        out.append(".");
        out.append(self.fraction.as_str());
        proof {
            reveal_strlit(".");
            assert("."@ =~= seq!['.']);
        }
        out
    }
}

} // verus!
