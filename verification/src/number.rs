//! Exact decimal numbers.
//!
//! A literal such as `12.5` is held as a mantissa and a scale: the value is
//! `mantissa / 10^scale`. The pair is kept normalized (no trailing zero in
//! the fraction), so two equal values have equal representations.
use vstd::prelude::*;

verus! {

/// The mathematical content of a number: `mantissa / 10^scale`.
pub struct NumV {
    pub mantissa: nat,
    pub scale: nat,
}

impl NumV {
    /// A pair is normal when no trailing fraction zero is left.
    pub open spec fn is_normal(self) -> bool {
        self.scale > 0 ==> self.mantissa % 10 != 0
    }
}

/// Strips trailing fraction zeros: `120 / 10^2` becomes `12 / 10^1`.
pub open spec fn spec_normalize(mantissa: nat, scale: nat) -> NumV
    decreases scale,
{
    if scale > 0 && mantissa % 10 == 0 {
        spec_normalize(mantissa / 10, (scale - 1) as nat)
    } else {
        NumV { mantissa, scale }
    }
}

pub proof fn lemma_normalize_is_normal(mantissa: nat, scale: nat)
    ensures
        spec_normalize(mantissa, scale).is_normal(),
    decreases scale,
{
    if scale > 0 && mantissa % 10 == 0 {
        lemma_normalize_is_normal(mantissa / 10, (scale - 1) as nat);
    }
}

/// An exact decimal number, normalized.
#[derive(Clone, Copy, PartialEq, Eq, Structural, Debug)]
pub struct Num {
    mantissa: u64,
    scale: usize,
}

impl View for Num {
    type V = NumV;

    closed spec fn view(&self) -> NumV {
        NumV { mantissa: self.mantissa as nat, scale: self.scale as nat }
    }
}

impl Num {
    /// The number `mantissa / 10^scale`, brought to normal form.
    pub fn new(mantissa: u64, scale: usize) -> (r: Num)
        ensures
            r@ == spec_normalize(mantissa as nat, scale as nat),
            r@.is_normal(),
    {
        let mut m: u64 = mantissa;
        let mut s: usize = scale;
        while s > 0 && m % 10 == 0
            invariant
                spec_normalize(m as nat, s as nat) == spec_normalize(
                    mantissa as nat,
                    scale as nat,
                ),
            decreases s,
        {
            m = m / 10;
            s = s - 1;
        }
        proof {
            lemma_normalize_is_normal(mantissa as nat, scale as nat);
        }
        Num { mantissa: m, scale: s }
    }
}

/// A decimal digit.
pub open spec fn digit_char(c: char) -> bool {
    '0' as u32 <= c as u32 && c as u32 <= '9' as u32
}

/// The value of one digit.
pub open spec fn digit_val(c: char) -> nat {
    (c as u32 - '0' as u32) as nat
}

/// The number a run of digits denotes, read left to right.
pub open spec fn digits_val(s: Seq<char>) -> nat
    decreases s.len(),
{
    if s.len() == 0 {
        0
    } else {
        digits_val(s.drop_last()) * 10 + digit_val(s.last())
    }
}

/// The digits of a text, with every other character dropped.
pub open spec fn digits_of(s: Seq<char>) -> Seq<char>
    decreases s.len(),
{
    if s.len() == 0 {
        Seq::empty()
    } else if digit_char(s.last()) {
        digits_of(s.drop_last()).push(s.last())
    } else {
        digits_of(s.drop_last())
    }
}

/// How many decimal points a text holds.
pub open spec fn dot_count(s: Seq<char>) -> nat
    decreases s.len(),
{
    if s.len() == 0 {
        0
    } else if s.last() == '.' {
        dot_count(s.drop_last()) + 1
    } else {
        dot_count(s.drop_last())
    }
}

pub open spec fn has_dot(s: Seq<char>) -> bool {
    exists|i: int| 0 <= i < s.len() && s[i] == '.'
}

/// How many characters follow the decimal point.
pub open spec fn decimal_scale(s: Seq<char>) -> nat
    decreases s.len(),
{
    if !has_dot(s) || s.len() == 0 {
        0
    } else if s.last() == '.' {
        0
    } else {
        decimal_scale(s.drop_last()) + 1
    }
}

/// A well-formed decimal literal: digits with at most one decimal point,
/// and at least one digit.
pub open spec fn decimal_shape(s: Seq<char>) -> bool {
    &&& forall|i: int| 0 <= i < s.len() ==> digit_char(s[i]) || s[i] == '.'
    &&& dot_count(s) <= 1
    &&& digits_of(s).len() > 0
}

/// Whether the denoted mantissa fits the representation.
pub open spec fn decimal_fits(s: Seq<char>) -> bool {
    digits_val(digits_of(s)) <= u64::MAX
}

/// The number a well-formed decimal literal denotes, in normal form.
pub open spec fn decimal_num(s: Seq<char>) -> NumV {
    spec_normalize(digits_val(digits_of(s)), decimal_scale(s))
}

/// Why a text failed to read as a decimal literal.
#[derive(Clone, Copy, PartialEq, Eq, Structural, Debug)]
pub enum DecimalIssue {
    /// Not digits with at most one decimal point.
    BadShape,
    /// The mantissa does not fit the representation.
    TooLarge,
}

pub proof fn lemma_digits_of_push(p: Seq<char>, c: char)
    ensures
        digits_of(p.push(c)) == if digit_char(c) {
            digits_of(p).push(c)
        } else {
            digits_of(p)
        },
{
    assert(p.push(c).drop_last() =~= p);
    assert(p.push(c).last() == c);
}

pub proof fn lemma_dot_count_push(p: Seq<char>, c: char)
    ensures
        dot_count(p.push(c)) == if c == '.' {
            dot_count(p) + 1
        } else {
            dot_count(p)
        },
{
    assert(p.push(c).drop_last() =~= p);
    assert(p.push(c).last() == c);
}

pub proof fn lemma_has_dot_push(p: Seq<char>, c: char)
    ensures
        has_dot(p.push(c)) == (has_dot(p) || c == '.'),
{
    let q = p.push(c);
    if has_dot(p) {
        let i = choose|i: int| 0 <= i < p.len() && p[i] == '.';
        assert(q[i] == '.');
    }
    if c == '.' {
        assert(q[p.len() as int] == '.');
    }
    if has_dot(q) {
        let i = choose|i: int| 0 <= i < q.len() && q[i] == '.';
        if i < p.len() {
            assert(p[i] == '.');
        }
    }
}

pub proof fn lemma_decimal_scale_push(p: Seq<char>, c: char)
    ensures
        decimal_scale(p.push(c)) == if c == '.' {
            0nat
        } else if has_dot(p) {
            decimal_scale(p) + 1
        } else {
            0nat
        },
{
    let q = p.push(c);
    lemma_has_dot_push(p, c);
    assert(q.drop_last() =~= p);
    assert(q.last() == c);
}

/// Reading more digits can only grow the denoted number.
pub proof fn lemma_digits_val_extend(t: Seq<char>, u: Seq<char>)
    ensures
        digits_val(t) <= digits_val(t + u),
    decreases u.len(),
{
    if u.len() == 0 {
        assert(t + u =~= t);
    } else {
        assert((t + u).drop_last() =~= t + u.drop_last());
        assert((t + u).len() > 0);
        lemma_digits_val_extend(t, u.drop_last());
    }
}

pub(crate) fn is_digit(c: char) -> (r: bool)
    ensures
        r == digit_char(c),
{
    let u = c as u32;
    ('0' as u32) <= u && u <= ('9' as u32)
}

/// Reads a span of a text as a decimal literal: digits with at most one
/// decimal point denote `digits / 10^scale`.
pub(crate) fn parse_decimal_range(s: &str, start: usize, end: usize) -> (r: Result<
    Num,
    DecimalIssue,
>)
    requires
        start <= end,
        end <= s@.len(),
    ensures
        ({
            let lex = s@.subrange(start as int, end as int);
            match r {
                Ok(n) => decimal_shape(lex) && decimal_fits(lex) && n@ == decimal_num(lex)
                    && n@.is_normal(),
                Err(DecimalIssue::BadShape) => !decimal_shape(lex),
                Err(DecimalIssue::TooLarge) => decimal_shape(lex) && !decimal_fits(lex),
            }
        }),
{
    let ghost lex = s@.subrange(start as int, end as int);
    let mut i: usize = start;
    let mut dots: usize = 0;
    let mut have_digit: bool = false;
    while i < end
        invariant
            start <= i <= end,
            end <= s@.len(),
            lex == s@.subrange(start as int, end as int),
            dots <= i - start,
            dots == dot_count(s@.subrange(start as int, i as int)),
            have_digit == (digits_of(s@.subrange(start as int, i as int)).len() > 0),
            forall|k: int| start <= k < i ==> digit_char(s@[k]) || s@[k] == '.',
        decreases end - i,
    {
        let c = s.get_char(i);
        proof {
            let p = s@.subrange(start as int, i as int);
            assert(p.push(s@[i as int]) =~= s@.subrange(start as int, i + 1));
            lemma_dot_count_push(p, s@[i as int]);
            lemma_digits_of_push(p, s@[i as int]);
        }
        if c == '.' {
            dots = dots + 1;
        } else if is_digit(c) {
            have_digit = true;
        } else {
            proof {
                assert(lex[i - start] == s@[i as int]);
            }
            return Err(DecimalIssue::BadShape);
        }
        i = i + 1;
    }
    proof {
        assert(s@.subrange(start as int, end as int) =~= lex);
        assert(forall|j: int|
            0 <= j < lex.len() ==> lex[j] == s@[start + j] && (digit_char(lex[j]) || lex[j]
                == '.'));
    }
    if dots > 1 || !have_digit {
        return Err(DecimalIssue::BadShape);
    }
    let mut m: u64 = 0;
    let mut sc: usize = 0;
    let mut seen: bool = false;
    i = start;
    while i < end
        invariant
            start <= i <= end,
            end <= s@.len(),
            sc <= i - start,
            lex == s@.subrange(start as int, end as int),
            decimal_shape(lex),
            forall|k: int| start <= k < end ==> digit_char(s@[k]) || s@[k] == '.',
            m as nat == digits_val(digits_of(s@.subrange(start as int, i as int))),
            sc as nat == decimal_scale(s@.subrange(start as int, i as int)),
            seen == has_dot(s@.subrange(start as int, i as int)),
        decreases end - i,
    {
        let c = s.get_char(i);
        proof {
            let p = s@.subrange(start as int, i as int);
            assert(p.push(s@[i as int]) =~= s@.subrange(start as int, i + 1));
            lemma_dot_count_push(p, s@[i as int]);
            lemma_digits_of_push(p, s@[i as int]);
            lemma_has_dot_push(p, s@[i as int]);
            lemma_decimal_scale_push(p, s@[i as int]);
        }
        if c == '.' {
            seen = true;
            sc = 0;
        } else {
            let d = c as u32 - '0' as u32;
            proof {
                let p = s@.subrange(start as int, i as int);
                let q = s@.subrange(start as int, i + 1);
                assert(digits_of(q).drop_last() =~= digits_of(p));
                assert(digits_val(digits_of(q)) == digits_val(digits_of(p)) * 10 + digit_val(
                    s@[i as int],
                ));
            }
            if m > (u64::MAX - d as u64) / 10 {
                proof {
                    let q = s@.subrange(start as int, i + 1);
                    let rest = s@.subrange(i + 1, end as int);
                    assert(q + rest =~= lex);
                    lemma_digits_of_concat(q, rest);
                    lemma_digits_val_extend(digits_of(q), digits_of(rest));
                    assert(m * 10 + d > u64::MAX) by (nonlinear_arith)
                        requires
                            m > (u64::MAX - d as u64) / 10,
                            d <= 9,
                    ;
                }
                return Err(DecimalIssue::TooLarge);
            }
            proof {
                assert(m * 10 + d <= u64::MAX) by (nonlinear_arith)
                    requires
                        m <= (u64::MAX - d as u64) / 10,
                        d <= 9,
                ;
            }
            m = m * 10 + d as u64;
            if seen {
                sc = sc + 1;
            }
        }
        i = i + 1;
    }
    proof {
        assert(s@.subrange(start as int, end as int) =~= lex);
    }
    Ok(Num::new(m, sc))
}

/// The digits of a split text are the joined digits of its parts.
pub proof fn lemma_digits_of_concat(a: Seq<char>, b: Seq<char>)
    ensures
        digits_of(a + b) == digits_of(a) + digits_of(b),
    decreases b.len(),
{
    if b.len() == 0 {
        assert(a + b =~= a);
        assert(digits_of(a) + digits_of(b) =~= digits_of(a));
    } else {
        assert((a + b).drop_last() =~= a + b.drop_last());
        assert((a + b).last() == b.last());
        lemma_digits_of_concat(a, b.drop_last());
        if digit_char(b.last()) {
            assert(digits_of(a) + digits_of(b) =~= (digits_of(a) + digits_of(
                b.drop_last(),
            )).push(b.last()));
        }
    }
}

/// The character of one digit.
pub open spec fn char_of_digit(d: nat) -> char {
    if d == 0 {
        '0'
    } else if d == 1 {
        '1'
    } else if d == 2 {
        '2'
    } else if d == 3 {
        '3'
    } else if d == 4 {
        '4'
    } else if d == 5 {
        '5'
    } else if d == 6 {
        '6'
    } else if d == 7 {
        '7'
    } else if d == 8 {
        '8'
    } else {
        '9'
    }
}

/// The decimal digits of a whole number, most significant first.
pub open spec fn dec_rep(n: nat) -> Seq<char>
    decreases n,
{
    if n < 10 {
        seq![char_of_digit(n)]
    } else {
        dec_rep(n / 10).push(char_of_digit(n % 10))
    }
}

/// The text of `m / 10^scale` with a fraction: the last `scale` digits of the
/// mantissa follow the decimal point.
pub open spec fn frac_rep(m: nat, scale: nat) -> Seq<char>
    decreases scale,
{
    if scale == 0 {
        dec_rep(m).push('.')
    } else {
        frac_rep(m / 10, (scale - 1) as nat).push(char_of_digit(m % 10))
    }
}

/// The decimal text of a number.
pub open spec fn spec_render(n: NumV) -> Seq<char> {
    if n.scale == 0 {
        dec_rep(n.mantissa)
    } else {
        frac_rep(n.mantissa, n.scale)
    }
}

fn digit_text(d: u64) -> (r: &'static str)
    requires
        d < 10,
    ensures
        r@ =~= seq![char_of_digit(d as nat)],
{
    proof {
        reveal_strlit("0");
        reveal_strlit("1");
        reveal_strlit("2");
        reveal_strlit("3");
        reveal_strlit("4");
        reveal_strlit("5");
        reveal_strlit("6");
        reveal_strlit("7");
        reveal_strlit("8");
        reveal_strlit("9");
    }
    if d == 0 {
        "0"
    } else if d == 1 {
        "1"
    } else if d == 2 {
        "2"
    } else if d == 3 {
        "3"
    } else if d == 4 {
        "4"
    } else if d == 5 {
        "5"
    } else if d == 6 {
        "6"
    } else if d == 7 {
        "7"
    } else if d == 8 {
        "8"
    } else {
        "9"
    }
}

fn dec_digits(m: u64) -> (r: String)
    ensures
        r@ == dec_rep(m as nat),
    decreases m,
{
    if m < 10 {
        String::from_str(digit_text(m))
    } else {
        dec_digits(m / 10).concat(digit_text(m % 10))
    }
}

fn frac_digits(m: u64, scale: usize) -> (r: String)
    ensures
        r@ == frac_rep(m as nat, scale as nat),
    decreases scale,
{
    if scale == 0 {
        proof {
            reveal_strlit(".");
        }
        dec_digits(m).concat(".")
    } else {
        frac_digits(m / 10, scale - 1).concat(digit_text(m % 10))
    }
}

impl Num {
    /// The decimal text of the number.
    pub fn to_text(&self) -> (r: String)
        ensures
            r@ == spec_render(self@),
    {
        if self.scale == 0 {
            dec_digits(self.mantissa)
        } else {
            frac_digits(self.mantissa, self.scale)
        }
    }
}

} // verus!
