//! Exact decimal numbers in plain notation.
//!
//! A [`Decimal`] is a sign, the digits before the point and the digits after
//! it, kept in normal form: no leading zeros before the point, no trailing
//! zeros after it, and no negative zero. Two decimals in normal form denote
//! the same number exactly when their parts are equal.

use vstd::prelude::*;
use vstd::string::*;

verus! {

/// The mathematical content of a [`Decimal`].
pub struct DecimalView {
    pub negative: bool,
    pub whole: Seq<char>,
    pub fraction: Seq<char>,
}

pub open spec fn is_digit(c: char) -> bool {
    '0' <= c && c <= '9'
}

pub open spec fn all_digits(s: Seq<char>) -> bool {
    forall|i: int| 0 <= i < s.len() ==> is_digit(#[trigger] s[i])
}

impl DecimalView {
    /// Normal form: digits only, at least one digit before the point, no
    /// leading zero but for a lone `0`, no trailing zero after the point, and
    /// zero carries no sign.
    pub open spec fn wf(self) -> bool {
        &&& all_digits(self.whole)
        &&& all_digits(self.fraction)
        &&& self.whole.len() >= 1
        &&& (self.whole.len() > 1 ==> self.whole[0] != '0')
        &&& (self.fraction.len() > 0 ==> self.fraction.last() != '0')
        &&& (self.negative ==> !self.is_zero())
    }

    pub open spec fn is_zero(self) -> bool {
        self.whole == seq!['0'] && self.fraction.len() == 0
    }

    /// The canonical text: an optional `-`, the whole digits, a point, and the
    /// fraction digits, of which there is always at least one (`4` prints as
    /// `4.0`).
    pub open spec fn text(self) -> Seq<char> {
        (if self.negative {
            seq!['-']
        } else {
            Seq::<char>::empty()
        }) + self.whole + seq!['.'] + (if self.fraction.len() == 0 {
            seq!['0']
        } else {
            self.fraction
        })
    }
}

/// Length of the sign that `s` starts with: 1 for `+` or `-`, else 0.
pub open spec fn sign_length(s: Seq<char>) -> int {
    if s.len() > 0 && (s[0] == '-' || s[0] == '+') {
        1
    } else {
        0
    }
}

/// Index of the first `.` in `s`, or the length of `s` if it holds none.
pub open spec fn dot_position(s: Seq<char>) -> int
    decreases s.len(),
{
    if s.len() == 0 || s[0] == '.' {
        0
    } else {
        1 + dot_position(s.skip(1))
    }
}

/// `w` without its leading zeros, but never empty: all zeros, or nothing,
/// gives `0`.
pub open spec fn trim_leading_zeros(w: Seq<char>) -> Seq<char>
    decreases w.len(),
{
    if w.len() == 0 {
        seq!['0']
    } else if w.len() > 1 && w[0] == '0' {
        trim_leading_zeros(w.skip(1))
    } else {
        w
    }
}

/// `f` without its trailing zeros.
pub open spec fn trim_trailing_zeros(f: Seq<char>) -> Seq<char>
    decreases f.len(),
{
    if f.len() > 0 && f.last() == '0' {
        trim_trailing_zeros(f.drop_last())
    } else {
        f
    }
}

/// The digits of `s` before its point, sign left out.
pub open spec fn whole_digits(s: Seq<char>) -> Seq<char> {
    let body = s.skip(sign_length(s));
    body.take(dot_position(body))
}

/// The digits of `s` after its point; empty where `s` has no point.
pub open spec fn fraction_digits(s: Seq<char>) -> Seq<char> {
    let body = s.skip(sign_length(s));
    let dot = dot_position(body);
    if dot < body.len() {
        body.skip(dot + 1)
    } else {
        Seq::<char>::empty()
    }
}

/// Whether `s` is a number in plain decimal notation: an optional sign, then
/// digits with at most one point among them, and at least one digit in all.
/// `5`, `5.`, `.5`, `+0.50` and `-12.25` are; `.`, `1e3`, `4,5` and the empty
/// text are not.
pub open spec fn is_decimal_text(s: Seq<char>) -> bool {
    &&& all_digits(whole_digits(s))
    &&& all_digits(fraction_digits(s))
    &&& whole_digits(s).len() + fraction_digits(s).len() > 0
}

/// The number that `s` denotes, if it denotes one.
pub open spec fn parse_decimal(s: Seq<char>) -> Option<DecimalView> {
    if is_decimal_text(s) {
        let whole = trim_leading_zeros(whole_digits(s));
        let fraction = trim_trailing_zeros(fraction_digits(s));
        let zero = whole == seq!['0'] && fraction.len() == 0;
        Some(DecimalView { negative: s[0] == '-' && !zero, whole, fraction })
    } else {
        None
    }
}

/// `dot_position(s)` is within `s`, nothing before it is a point, and it holds
/// one unless it is the end of `s`.
proof fn lemma_dot_position(s: Seq<char>)
    ensures
        0 <= dot_position(s) <= s.len(),
        forall|i: int| 0 <= i < dot_position(s) ==> s[i] != '.',
        dot_position(s) < s.len() ==> s[dot_position(s)] == '.',
    decreases s.len(),
{
    if s.len() == 0 || s[0] == '.' {
    } else {
        let rest = s.skip(1);
        lemma_dot_position(rest);
        assert forall|i: int| 0 <= i < dot_position(s) implies s[i] != '.' by {
            if i > 0 {
                assert(s[i] == rest[i - 1]);
            }
        }
        if dot_position(s) < s.len() {
            assert(s[dot_position(s)] == rest[dot_position(rest)]);
        }
    }
}

/// The first point found by hand is the one `dot_position` names.
proof fn lemma_dot_position_is(s: Seq<char>, d: int)
    requires
        0 <= d <= s.len(),
        forall|i: int| 0 <= i < d ==> s[i] != '.',
        d < s.len() ==> s[d] == '.',
    ensures
        dot_position(s) == d,
{
    lemma_dot_position(s);
}

/// Leading zeros counted by hand: `k` zeros, then a digit that is not one, or
/// the last digit.
proof fn lemma_trim_leading_zeros(w: Seq<char>, k: int)
    requires
        w.len() > 0,
        0 <= k < w.len(),
        forall|i: int| 0 <= i < k ==> w[i] == '0',
        k == w.len() - 1 || w[k] != '0',
    ensures
        trim_leading_zeros(w) == w.skip(k),
    decreases k,
{
    if k == 0 {
        assert(w.skip(0) =~= w);
    } else {
        let rest = w.skip(1);
        assert(w[0] == '0');
        assert forall|i: int| 0 <= i < k - 1 implies rest[i] == '0' by {
            assert(rest[i] == w[i + 1]);
        }
        assert(rest[k - 1] == w[k]);
        lemma_trim_leading_zeros(rest, k - 1);
        assert(rest.skip(k - 1) =~= w.skip(k));
    }
}

/// Trailing zeros counted by hand: everything from `m` on is a zero, and the
/// digit before `m`, if there is one, is not.
proof fn lemma_trim_trailing_zeros(f: Seq<char>, m: int)
    requires
        0 <= m <= f.len(),
        forall|i: int| m <= i < f.len() ==> f[i] == '0',
        m > 0 ==> f[m - 1] != '0',
    ensures
        trim_trailing_zeros(f) == f.take(m),
    decreases f.len() - m,
{
    if m == f.len() {
        assert(f.take(m) =~= f);
    } else {
        let rest = f.drop_last();
        assert(f.last() == '0');
        assert forall|i: int| m <= i < rest.len() implies rest[i] == '0' by {
            assert(rest[i] == f[i]);
        }
        if m > 0 {
            assert(rest[m - 1] == f[m - 1]);
        }
        lemma_trim_trailing_zeros(rest, m);
        assert(rest.take(m) =~= f.take(m));
    }
}

/// Whatever parses is in normal form.
pub proof fn lemma_parse_decimal_wf(s: Seq<char>)
    requires
        parse_decimal(s) is Some,
    ensures
        parse_decimal(s)->0.wf(),
{
    lemma_trim_leading_zeros_digits(whole_digits(s));
    lemma_trim_trailing_zeros_digits(fraction_digits(s));
}

proof fn lemma_trim_leading_zeros_digits(w: Seq<char>)
    requires
        all_digits(w),
    ensures
        all_digits(trim_leading_zeros(w)),
        trim_leading_zeros(w).len() >= 1,
        trim_leading_zeros(w).len() > 1 ==> trim_leading_zeros(w)[0] != '0',
    decreases w.len(),
{
    if w.len() > 1 && w[0] == '0' {
        let rest = w.skip(1);
        assert forall|i: int| 0 <= i < rest.len() implies is_digit(#[trigger] rest[i]) by {
            assert(rest[i] == w[i + 1]);
        }
        lemma_trim_leading_zeros_digits(rest);
    }
}

proof fn lemma_trim_trailing_zeros_digits(f: Seq<char>)
    requires
        all_digits(f),
    ensures
        all_digits(trim_trailing_zeros(f)),
        trim_trailing_zeros(f).len() > 0 ==> trim_trailing_zeros(f).last() != '0',
    decreases f.len(),
{
    if f.len() > 0 && f.last() == '0' {
        let rest = f.drop_last();
        assert forall|i: int| 0 <= i < rest.len() implies is_digit(#[trigger] rest[i]) by {
            assert(rest[i] == f[i]);
        }
        lemma_trim_trailing_zeros_digits(rest);
    }
}

/// Printing and reading back gives the same number: the canonical text of a
/// decimal in normal form parses to that decimal.
pub proof fn lemma_parse_text(d: DecimalView)
    requires
        d.wf(),
    ensures
        parse_decimal(d.text()) == Some(d),
{
    let s = d.text();
    let sign: Seq<char> = if d.negative {
        seq!['-']
    } else {
        Seq::<char>::empty()
    };
    let frac: Seq<char> = if d.fraction.len() == 0 {
        seq!['0']
    } else {
        d.fraction
    };
    assert(s == sign + d.whole + seq!['.'] + frac);
    assert(is_digit(d.whole[0]));
    assert(s[0] == if d.negative {
        '-'
    } else {
        d.whole[0]
    });
    assert(sign_length(s) == sign.len());
    let body = s.skip(sign_length(s));
    assert(body =~= d.whole + seq!['.'] + frac);
    let w = d.whole.len() as int;
    assert forall|i: int| 0 <= i < w implies body[i] != '.' by {
        assert(body[i] == d.whole[i]);
        assert(is_digit(d.whole[i]));
    }
    assert(body[w] == '.');
    lemma_dot_position_is(body, w);
    assert(whole_digits(s) =~= d.whole);
    assert(fraction_digits(s) =~= frac);
    assert(all_digits(frac)) by {
        if d.fraction.len() == 0 {
            assert(frac[0] == '0');
        }
    }
    lemma_trim_leading_zeros(d.whole, 0);
    assert(d.whole.skip(0) =~= d.whole);
    if d.fraction.len() == 0 {
        lemma_trim_trailing_zeros(frac, 0);
        assert(frac.take(0) =~= d.fraction);
    } else {
        lemma_trim_trailing_zeros(frac, frac.len() as int);
        assert(frac.take(frac.len() as int) =~= d.fraction);
    }
}

/// Signs, digits and the point are ASCII, so a text that denotes a number is
/// ASCII throughout.
proof fn lemma_decimal_text_is_ascii(s: Seq<char>)
    requires
        is_decimal_text(s),
    ensures
        vstd::utf8::is_ascii_chars(s),
{
    let sign = sign_length(s);
    let body = s.skip(sign);
    let dot = dot_position(body);
    lemma_dot_position(body);
    assert forall|i: int| 0 <= i < s.len() implies '\0' <= #[trigger] s[i] <= '\u{7f}' by {
        if i >= sign {
            let j = i - sign;
            assert(body[j] == s[i]);
            if j < dot {
                assert(whole_digits(s)[j] == body[j]);
                assert(is_digit(whole_digits(s)[j]));
            } else if j > dot {
                assert(fraction_digits(s)[j - dot - 1] == body[j]);
                assert(is_digit(fraction_digits(s)[j - dot - 1]));
            }
        }
    }
}

/// How the bytes of an ASCII text tell its characters apart.
proof fn lemma_ascii_byte(c: char)
    requires
        c <= '\u{7f}',
    ensures
        (c as u8 == 43u8) == (c == '+'),
        (c as u8 == 45u8) == (c == '-'),
        (c as u8 == 46u8) == (c == '.'),
        (c as u8 == 48u8) == (c == '0'),
        (48u8 <= c as u8 && c as u8 <= 57u8) == is_digit(c),
{
}

/// Finds the first point at or after `from`.
fn find_dot(text: &str, from: usize, n: usize) -> (dot: usize)
    requires
        text.is_ascii(),
        from <= n,
        n == text@.len(),
    ensures
        from <= dot <= n,
        dot - from == dot_position(text@.skip(from as int)),
{
    let ghost s = text@;
    let mut dot: usize = from;
    while dot < n && text.get_ascii(dot) != 46u8
        invariant
            text.is_ascii(),
            s == text@,
            n == s.len(),
            from <= dot <= n,
            forall|i: int| from <= i < dot ==> s[i] != '.',
        decreases n - dot,
    {
        proof {
            lemma_ascii_byte(s[dot as int]);
        }
        dot = dot + 1;
    }
    proof {
        let body = s.skip(from as int);
        if dot < n {
            lemma_ascii_byte(s[dot as int]);
        }
        assert forall|i: int| 0 <= i < dot - from implies body[i] != '.' by {
            assert(body[i] == s[from + i]);
        }
        lemma_dot_position_is(body, dot - from);
    }
    dot
}

/// Whether the characters from `from` up to `to` are all digits.
fn is_digit_run(text: &str, from: usize, to: usize) -> (ok: bool)
    requires
        text.is_ascii(),
        from <= to <= text@.len(),
    ensures
        ok == all_digits(text@.subrange(from as int, to as int)),
{
    let ghost s = text@;
    let ghost run = s.subrange(from as int, to as int);
    let mut i: usize = from;
    while i < to
        invariant
            text.is_ascii(),
            s == text@,
            from <= i <= to <= s.len(),
            run == s.subrange(from as int, to as int),
            forall|j: int| 0 <= j < i - from ==> is_digit(#[trigger] run[j]),
        decreases to - i,
    {
        let b = text.get_ascii(i);
        proof {
            lemma_ascii_byte(s[i as int]);
            assert(run[i - from] == s[i as int]);
        }
        if b < 48u8 || b > 57u8 {
            return false;
        }
        i = i + 1;
    }
    true
}

/// Where the whole digits begin once their leading zeros are dropped.
fn leading_zeros_end(text: &str, from: usize, to: usize) -> (k: usize)
    requires
        text.is_ascii(),
        from < to <= text@.len(),
    ensures
        from <= k < to,
        trim_leading_zeros(text@.subrange(from as int, to as int)) == text@.subrange(
            k as int,
            to as int,
        ),
{
    let ghost s = text@;
    let ghost w = s.subrange(from as int, to as int);
    let mut k: usize = from;
    while k + 1 < to && text.get_ascii(k) == 48u8
        invariant
            text.is_ascii(),
            s == text@,
            from <= k < to <= s.len(),
            forall|t: int| from <= t < k ==> s[t] == '0',
        decreases to - k,
    {
        proof {
            lemma_ascii_byte(s[k as int]);
        }
        k = k + 1;
    }
    proof {
        lemma_ascii_byte(s[k as int]);
        assert forall|t: int| 0 <= t < k - from implies w[t] == '0' by {
            assert(w[t] == s[from + t]);
        }
        assert(w[k - from] == s[k as int]);
        lemma_trim_leading_zeros(w, k - from);
        assert(w.skip(k - from) =~= s.subrange(k as int, to as int));
    }
    k
}

/// Where the fraction digits end once their trailing zeros are dropped.
fn trailing_zeros_start(text: &str, from: usize, to: usize) -> (m: usize)
    requires
        text.is_ascii(),
        from <= to <= text@.len(),
    ensures
        from <= m <= to,
        trim_trailing_zeros(text@.subrange(from as int, to as int)) == text@.subrange(
            from as int,
            m as int,
        ),
{
    let ghost s = text@;
    let ghost f = s.subrange(from as int, to as int);
    let mut m: usize = to;
    while m > from && text.get_ascii(m - 1) == 48u8
        invariant
            text.is_ascii(),
            s == text@,
            from <= m <= to <= s.len(),
            forall|t: int| m <= t < to ==> s[t] == '0',
        decreases m,
    {
        proof {
            lemma_ascii_byte(s[m - 1]);
        }
        m = m - 1;
    }
    proof {
        if m > from {
            lemma_ascii_byte(s[m - 1]);
            assert(f[m - from - 1] == s[m - 1]);
        }
        assert forall|t: int| m - from <= t < f.len() implies f[t] == '0' by {
            assert(f[t] == s[from + t]);
        }
        lemma_trim_trailing_zeros(f, m - from);
        assert(f.take(m - from) =~= s.subrange(from as int, m as int));
    }
    m
}

/// An exact decimal number in normal form.
#[derive(Debug, PartialEq, Eq)]
pub struct Decimal {
    negative: bool,
    whole: String,
    fraction: String,
}

impl View for Decimal {
    type V = DecimalView;

    closed spec fn view(&self) -> DecimalView {
        DecimalView { negative: self.negative, whole: self.whole@, fraction: self.fraction@ }
    }
}

impl Clone for Decimal {
    fn clone(&self) -> (copy: Self)
        ensures
            copy@ == self@,
    {
        proof {
            use_type_invariant(self);
        }
        Decimal {
            negative: self.negative,
            whole: self.whole.clone(),
            fraction: self.fraction.clone(),
        }
    }
}

impl Decimal {
    #[verifier::type_invariant]
    spec fn normal(self) -> bool {
        self@.wf()
    }

    /// The content of the number one.
    pub open spec fn unit() -> DecimalView {
        DecimalView { negative: false, whole: seq!['1'], fraction: Seq::<char>::empty() }
    }

    /// The number one, the scale at which a view is drawn unless told
    /// otherwise.
    pub fn one() -> (unit: Decimal)
        ensures
            unit@ == Decimal::unit(),
            unit@.wf(),
    {
        proof {
            reveal_strlit("1");
        }
        let whole = "1".to_owned();
        let fraction = String::new();
        assert(whole@ =~= seq!['1']);
        Decimal { negative: false, whole, fraction }
    }

    /// Reads a number in plain decimal notation. `None` where `text` is not
    /// one.
    pub fn parse(text: &str) -> (parsed: Option<Decimal>)
        ensures
            match parsed {
                Some(d) => parse_decimal(text@) == Some(d@),
                None => parse_decimal(text@) is None,
            },
    {
        if !text.is_ascii() {
            proof {
                if is_decimal_text(text@) {
                    lemma_decimal_text_is_ascii(text@);
                }
            }
            return None;
        }
        let n = text.unicode_len();
        let ghost s = text@;
        let mut start: usize = 0;
        let mut minus = false;
        if n > 0 {
            let first = text.get_ascii(0);
            proof {
                lemma_ascii_byte(s[0]);
            }
            if first == 45u8 {
                start = 1;
                minus = true;
            } else if first == 43u8 {
                start = 1;
            }
        }
        let dot = find_dot(text, start, n);
        proof {
            assert(whole_digits(s) =~= s.subrange(start as int, dot as int));
            if dot < n {
                assert(fraction_digits(s) =~= s.subrange(dot + 1, n as int));
            }
        }
        if !is_digit_run(text, start, dot) {
            return None;
        }
        if dot < n {
            if !is_digit_run(text, dot + 1, n) {
                return None;
            }
            if dot == start && dot + 1 == n {
                return None;
            }
        } else if dot == start {
            return None;
        }
        let fraction = if dot < n {
            let m = trailing_zeros_start(text, dot + 1, n);
            text.substring_ascii(dot + 1, m).to_owned()
        } else {
            proof {
                assert(trim_trailing_zeros(Seq::<char>::empty()) =~= Seq::<char>::empty());
            }
            String::new()
        };
        let mut whole_is_zero = true;
        let whole = if dot == start {
            proof {
                reveal_strlit("0");
            }
            let zero = "0".to_owned();
            assert(zero@ =~= seq!['0']);
            zero
        } else {
            let k = leading_zeros_end(text, start, dot);
            whole_is_zero = k + 1 == dot && text.get_ascii(k) == 48u8;
            let digits = text.substring_ascii(k, dot).to_owned();
            proof {
                lemma_ascii_byte(s[k as int]);
                assert(digits@[0] == s[k as int]);
                if whole_is_zero {
                    assert(digits@ =~= seq!['0']);
                }
            }
            digits
        };
        proof {
            lemma_parse_decimal_wf(s);
        }
        let zero = whole_is_zero && fraction.as_str().is_empty();
        Some(Decimal { negative: minus && !zero, whole, fraction })
    }

    /// The canonical text of this number.
    pub fn to_string(&self) -> (text: String)
        ensures
            self@.wf(),
            text@ == self@.text(),
    {
        proof {
            use_type_invariant(self);
            reveal_strlit("-");
            reveal_strlit(".");
            reveal_strlit("0");
        }
        let mut text = String::new();
        if self.negative {
            text.append("-");
        }
        text.append(self.whole.as_str());
        text.append(".");
        if self.fraction.as_str().is_empty() {
            text.append("0");
        } else {
            text.append(self.fraction.as_str());
        }
        assert(text@ =~= self@.text());
        text
    }
}

} // verus!
