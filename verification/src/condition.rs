//! The animation condition language: `speed < 200 && speed >= 50 || ...`.
//!
//! `&&` binds tighter than `||`, both associate to the left, there are no
//! parentheses and no negation.  A comparison is `speed`, an operator out of
//! `<= >= == != < >`, and a number literal as `str::parse::<f64>` accepts it
//! (an optional sign, decimal digits and at most one point).  The literal is
//! kept as written; [`Cond::eval_whole`] reads it as the `f64` that
//! `str::parse::<f64>` gives and compares whole speeds with that value.
use vstd::prelude::*;

use crate::natural::{
    compare, from_u64, limbs_value, mul_add, pow2, sum, times_pow2, Order,
};

use crate::text::{
    all_digits, chars_of, digit_value, digits_value, pow10, debug_quoted, is_ascii_alpha, is_ascii_alpha_char, is_ascii_digit,
    is_ascii_digit_char, is_ws, is_ws_char, quote, string_from_chars,
};

verus! {

broadcast use vstd::string::group_string_axioms;

/// The variables a condition may read.
#[derive(Debug, Clone, Copy, PartialEq, Eq, Structural)]
pub enum Var {
    Speed,
}

/// Comparison operators.
#[derive(Debug, Clone, Copy, PartialEq, Eq, Structural)]
pub enum Op {
    Lt,
    Le,
    Gt,
    Ge,
    Eq,
    Ne,
}

/// A number literal exactly as it was written in the condition.
#[derive(Debug, Clone)]
pub struct Literal {
    pub text: String,
}

/// A parsed condition.
#[derive(Debug)]
pub enum Cond {
    Always,
    Cmp { var: Var, op: Op, rhs: Literal },
    And(Box<Cond>, Box<Cond>),
    Or(Box<Cond>, Box<Cond>),
}

/// The mathematical value of a [`Cond`]: literals are their characters.
pub enum CondView {
    Always,
    Cmp { var: Var, op: Op, rhs: Seq<char> },
    And(Box<CondView>, Box<CondView>),
    Or(Box<CondView>, Box<CondView>),
}

pub open spec fn cond_view(c: Cond) -> CondView
    decreases c,
{
    match c {
        Cond::Always => CondView::Always,
        Cond::Cmp { var, op, rhs } => CondView::Cmp { var, op, rhs: rhs.text@ },
        Cond::And(l, r) => CondView::And(Box::new(cond_view(*l)), Box::new(cond_view(*r))),
        Cond::Or(l, r) => CondView::Or(Box::new(cond_view(*l)), Box::new(cond_view(*r))),
    }
}

impl View for Cond {
    type V = CondView;

    open spec fn view(&self) -> CondView {
        cond_view(*self)
    }
}

impl Cond {
    /// A deep copy of the condition.
    pub fn duplicate(&self) -> (r: Cond)
        ensures
            r@ == self@,
        decreases self,
    {
        match self {
            Cond::Always => Cond::Always,
            Cond::Cmp { var, op, rhs } => Cond::Cmp {
                var: *var,
                op: *op,
                rhs: Literal { text: rhs.text.clone() },
            },
            Cond::And(l, r) => Cond::And(Box::new(l.duplicate()), Box::new(r.duplicate())),
            Cond::Or(l, r) => Cond::Or(Box::new(l.duplicate()), Box::new(r.duplicate())),
        }
    }
}

impl Clone for Cond {
    fn clone(&self) -> (r: Cond)
        ensures
            r@ == self@,
    {
        self.duplicate()
    }
}

/// Why a condition was rejected.
pub enum Failure {
    ExpectedIdentifier,
    UnknownIdentifier(Seq<char>),
    ExpectedOperator,
    ExpectedNumber,
    BadNumber(Seq<char>),
    Trailing(Seq<char>),
}

/// The message a [`ParseError`] carries for each failure.
pub open spec fn failure_message(f: Failure) -> Seq<char> {
    match f {
        Failure::ExpectedIdentifier => "expected identifier"@,
        Failure::UnknownIdentifier(name) => "unknown identifier "@ + debug_quoted(name),
        Failure::ExpectedOperator => "expected comparison operator"@,
        Failure::ExpectedNumber => "expected number"@,
        Failure::BadNumber(lit) => "bad number literal "@ + debug_quoted(lit),
        Failure::Trailing(rest) => "unexpected trailing input "@ + debug_quoted(rest),
    }
}

/// A rejected condition: the reason and the whole input as given.
#[derive(Debug)]
pub struct ParseError {
    pub msg: String,
    pub input: String,
}

impl ParseError {
    /// The error's message: `invalid condition "<input>": <reason>`.
    pub fn message(&self) -> (m: String)
        ensures
            m@ == "invalid condition "@ + debug_quoted(self.input@) + ": "@ + self.msg@,
    {
        let mut m = "invalid condition ".to_owned();
        m.append(quote(self.input.as_str()).as_str());
        m.append(": ");
        m.append(self.msg.as_str());
        m
    }
}

// ---------------------------------------------------------------------------
// The grammar, over the characters of the trimmed input and positions in it.
// ---------------------------------------------------------------------------
/// The first position at or after `i` that does not hold whitespace.
pub open spec fn skip_ws(s: Seq<char>, i: int) -> int
    decreases s.len() - i,
{
    if 0 <= i < s.len() && is_ws(s[i]) {
        skip_ws(s, i + 1)
    } else {
        i
    }
}

/// One past the last position of `s[..j]` that does not hold whitespace.
pub open spec fn skip_ws_back(s: Seq<char>, j: int) -> int
    decreases j,
{
    if 0 < j <= s.len() && is_ws(s[j - 1]) {
        skip_ws_back(s, j - 1)
    } else {
        j
    }
}

/// `str::trim`: the input without leading and trailing whitespace.
pub open spec fn trim(t: Seq<char>) -> Seq<char> {
    let a = skip_ws(t, 0);
    let b = skip_ws_back(t, t.len() as int);
    if a < b {
        t.subrange(a, b)
    } else {
        Seq::empty()
    }
}

pub open spec fn is_ident_char(c: char) -> bool {
    is_ascii_alpha(c) || c == '_'
}

pub open spec fn is_number_char(c: char) -> bool {
    is_ascii_digit(c) || c == '.' || c == '-' || c == '+'
}

/// The end of the run of identifier characters starting at `i`.
pub open spec fn ident_end(s: Seq<char>, i: int) -> int
    decreases s.len() - i,
{
    if 0 <= i < s.len() && is_ident_char(s[i]) {
        ident_end(s, i + 1)
    } else {
        i
    }
}

/// The end of the run of number characters starting at `i`.
pub open spec fn number_end(s: Seq<char>, i: int) -> int
    decreases s.len() - i,
{
    if 0 <= i < s.len() && is_number_char(s[i]) {
        number_end(s, i + 1)
    } else {
        i
    }
}

/// `s[i..]` begins with `lit`.
pub open spec fn starts_at(s: Seq<char>, i: int, lit: Seq<char>) -> bool {
    0 <= i && i + lit.len() <= s.len() && s.subrange(i, i + lit.len()) == lit
}

/// The part of a literal after an optional leading sign.
pub open spec fn literal_body(t: Seq<char>) -> Seq<char> {
    if t.len() > 0 && (t[0] == '+' || t[0] == '-') {
        t.drop_first()
    } else {
        t
    }
}

/// What `str::parse::<f64>` accepts among strings of digits, points and
/// signs: an optional sign, then digits with at most one point and at least
/// one digit.
pub open spec fn valid_literal(t: Seq<char>) -> bool {
    let b = literal_body(t);
    &&& forall|i: int| 0 <= i < b.len() ==> is_ascii_digit(#[trigger] b[i]) || b[i] == '.'
    &&& forall|i: int, j: int| 0 <= i < b.len() && 0 <= j < b.len() && #[trigger] b[i] == '.'
        && #[trigger] b[j] == '.' ==> i == j
    &&& exists|i: int| 0 <= i < b.len() && is_ascii_digit(#[trigger] b[i])
}

pub open spec fn spec_parse_ident(s: Seq<char>, i: int) -> Result<(Var, int), Failure> {
    let j = skip_ws(s, i);
    let e = ident_end(s, j);
    if e == j {
        Err(Failure::ExpectedIdentifier)
    } else if s.subrange(j, e) == "speed"@ {
        Ok((Var::Speed, e))
    } else {
        Err(Failure::UnknownIdentifier(s.subrange(j, e)))
    }
}

pub open spec fn spec_parse_op(s: Seq<char>, i: int) -> Result<(Op, int), Failure> {
    let j = skip_ws(s, i);
    if starts_at(s, j, "<="@) {
        Ok((Op::Le, j + 2))
    } else if starts_at(s, j, ">="@) {
        Ok((Op::Ge, j + 2))
    } else if starts_at(s, j, "=="@) {
        Ok((Op::Eq, j + 2))
    } else if starts_at(s, j, "!="@) {
        Ok((Op::Ne, j + 2))
    } else if starts_at(s, j, "<"@) {
        Ok((Op::Lt, j + 1))
    } else if starts_at(s, j, ">"@) {
        Ok((Op::Gt, j + 1))
    } else {
        Err(Failure::ExpectedOperator)
    }
}

pub open spec fn spec_parse_number(s: Seq<char>, i: int) -> Result<(Seq<char>, int), Failure> {
    let j = skip_ws(s, i);
    let e = number_end(s, j);
    if e == j {
        Err(Failure::ExpectedNumber)
    } else if valid_literal(s.subrange(j, e)) {
        Ok((s.subrange(j, e), e))
    } else {
        Err(Failure::BadNumber(s.subrange(j, e)))
    }
}

pub open spec fn spec_parse_comparison(s: Seq<char>, i: int) -> Result<(CondView, int), Failure> {
    match spec_parse_ident(s, i) {
        Err(f) => Err(f),
        Ok((var, i1)) => match spec_parse_op(s, i1) {
            Err(f) => Err(f),
            Ok((op, i2)) => match spec_parse_number(s, i2) {
                Err(f) => Err(f),
                Ok((rhs, i3)) => Ok((CondView::Cmp { var, op, rhs }, i3)),
            },
        },
    }
}

/// The `&& cmp` repetitions after a first operand `acc` that ended at `i`.
pub open spec fn spec_and_tail(s: Seq<char>, acc: CondView, i: int) -> Result<
    (CondView, int),
    Failure,
>
    decreases s.len() - i,
{
    let k = skip_ws(s, i);
    if 0 <= i <= s.len() && starts_at(s, k, "&&"@) {
        match spec_parse_comparison(s, k + 2) {
            Err(f) => Err(f),
            Ok((c, j)) => {
                proof {
                    reveal_strlit("&&");
                    lemma_skip_ws_bounds(s, i);
                    lemma_comparison_advances(s, k + 2);
                }
                spec_and_tail(s, CondView::And(Box::new(acc), Box::new(c)), j)
            },
        }
    } else {
        Ok((acc, k))
    }
}

pub open spec fn spec_parse_and(s: Seq<char>, i: int) -> Result<(CondView, int), Failure> {
    match spec_parse_comparison(s, i) {
        Err(f) => Err(f),
        Ok((c, j)) => spec_and_tail(s, c, j),
    }
}

/// The `|| and-chain` repetitions after a first operand `acc` that ended at `i`.
pub open spec fn spec_or_tail(s: Seq<char>, acc: CondView, i: int) -> Result<
    (CondView, int),
    Failure,
>
    decreases s.len() - i,
{
    let k = skip_ws(s, i);
    if 0 <= i <= s.len() && starts_at(s, k, "||"@) {
        match spec_parse_and(s, k + 2) {
            Err(f) => Err(f),
            Ok((c, j)) => {
                proof {
                    reveal_strlit("||");
                    lemma_skip_ws_bounds(s, i);
                    lemma_and_advances(s, k + 2);
                }
                spec_or_tail(s, CondView::Or(Box::new(acc), Box::new(c)), j)
            },
        }
    } else {
        Ok((acc, k))
    }
}

pub open spec fn spec_parse_or(s: Seq<char>, i: int) -> Result<(CondView, int), Failure> {
    match spec_parse_and(s, i) {
        Err(f) => Err(f),
        Ok((c, j)) => spec_or_tail(s, c, j),
    }
}

/// The meaning of [`parse`]: the condition the whole input denotes, or why
/// it is rejected.
pub open spec fn spec_parse(input: Seq<char>) -> Result<CondView, Failure> {
    let s = trim(input);
    match spec_parse_or(s, 0) {
        Err(f) => Err(f),
        Ok((c, j)) => if j >= s.len() {
            Ok(c)
        } else {
            Err(Failure::Trailing(s.subrange(j, s.len() as int)))
        },
    }
}

/// Every literal in the condition is one `str::parse::<f64>` accepts.
pub open spec fn literals_valid(c: CondView) -> bool
    decreases c,
{
    match c {
        CondView::Always => true,
        CondView::Cmp { rhs, .. } => valid_literal(rhs),
        CondView::And(l, r) => literals_valid(*l) && literals_valid(*r),
        CondView::Or(l, r) => literals_valid(*l) && literals_valid(*r),
    }
}

// ---------------------------------------------------------------------------
// Exact evaluation at whole-number speeds.
// ---------------------------------------------------------------------------
/// The literal has a leading minus sign.
pub open spec fn literal_negative(t: Seq<char>) -> bool {
    t.len() > 0 && t[0] == '-'
}

/// The position of the first point in `b` at or after `i`, or `b.len()`.
pub open spec fn dot_index(b: Seq<char>, i: int) -> int
    decreases b.len() - i,
{
    if 0 <= i < b.len() && b[i] != '.' {
        dot_index(b, i + 1)
    } else {
        i
    }
}

/// The digits before the point.
pub open spec fn literal_int_digits(t: Seq<char>) -> Seq<char> {
    let b = literal_body(t);
    b.subrange(0, dot_index(b, 0))
}

/// The digits after the point.
pub open spec fn literal_frac_digits(t: Seq<char>) -> Seq<char> {
    let b = literal_body(t);
    let d = dot_index(b, 0);
    if d < b.len() {
        b.subrange(d + 1, b.len() as int)
    } else {
        Seq::empty()
    }
}

/// The magnitude of the literal is `literal_scaled(t) / 10^literal_scale(t)`.
pub open spec fn literal_scaled(t: Seq<char>) -> nat {
    digits_value(literal_int_digits(t) + literal_frac_digits(t))
}

pub open spec fn literal_scale(t: Seq<char>) -> nat {
    literal_frac_digits(t).len()
}

/// Where a whole number lies relative to a literal's exact value.
#[derive(Debug, Clone, Copy, PartialEq, Eq, Structural)]
pub enum Relation {
    Below,
    Equal,
    Above,
}

/// `floor(log2 w)` for `w >= 1`.
pub open spec fn floor_log2(w: nat) -> nat
    decreases w,
{
    if w < 2 {
        0
    } else {
        1 + floor_log2(w / 2)
    }
}

/// Whether `n / d`, rounded to the nearest `f64` with ties to even (as
/// `str::parse::<f64>` rounds), lies above the whole number `w`, for
/// `w < 2^53`. The rounding gives a value above `w` exactly when `n / d`
/// exceeds the midpoint between `w` and the next `f64` up: `w + 2^(p-53)`
/// with `2^p <= w < 2^(p+1)`, or `2^-1075` for `w = 0`. A tie rounds to `w`,
/// whose significand is even.
pub open spec fn rounds_above(w: nat, n: nat, d: nat) -> bool {
    if w == 0 {
        n * pow2(1075) > d
    } else {
        let s = (53 - floor_log2(w)) as nat;
        n * pow2(s) > (w * pow2(s) + 1) * d
    }
}

/// Whether `n / d`, rounded likewise, lies below the whole number
/// `1 <= w < 2^53`: below the midpoint between `w` and the next `f64` down,
/// `w - 2^(p-53)`, or `w - 2^(p-54)` when `w = 2^p` (the spacing halves
/// below a power of two). A tie rounds to `w`.
pub open spec fn rounds_below(w: nat, n: nat, d: nat) -> bool {
    if w == 0 {
        false
    } else {
        let p = floor_log2(w);
        let s: nat = if w == pow2(p) {
            (54 - p) as nat
        } else {
            (53 - p) as nat
        };
        n * pow2(s) + d < w * pow2(s) * d
    }
}

/// Where the whole number `w` lies relative to the `f64` that
/// `str::parse::<f64>` reads from the literal `t`.
pub open spec fn whole_vs_literal(w: nat, t: Seq<char>) -> Relation {
    let n = literal_scaled(t);
    let d = pow10(literal_scale(t));
    if literal_negative(t) {
        if w == 0 && !rounds_above(0, n, d) {
            Relation::Equal
        } else {
            Relation::Above
        }
    } else if rounds_above(w, n, d) {
        Relation::Below
    } else if rounds_below(w, n, d) {
        Relation::Above
    } else {
        Relation::Equal
    }
}

/// Whether `(w - v).abs() < f64::EPSILON` for the whole number `w` and the
/// `f64` value `v` of the literal `t`; the subtraction is exact wherever the
/// two are close. For `w = 0` that is `|v| < 2^-52`, reached when the
/// literal's magnitude is below `2^-52 - 2^-106`; for `w = 1` it also holds
/// of `v = 1 - 2^-53`, reached from above `1 - 3 * 2^-54`; for larger `w`
/// only `v = w` is that close.
pub open spec fn within_epsilon(w: nat, t: Seq<char>) -> bool {
    let n = literal_scaled(t);
    let d = pow10(literal_scale(t));
    if w == 0 {
        n * pow2(106) < 0x3F_FFFF_FFFF_FFFF * d
    } else if literal_negative(t) {
        false
    } else if w == 1 {
        n * pow2(54) > 0x3F_FFFF_FFFF_FFFD * d && n * pow2(53) <= 0x20_0000_0000_0001 * d
    } else {
        whole_vs_literal(w, t) == Relation::Equal
    }
}

/// Whether the condition holds when the speed is the whole number `w`, each
/// literal read as `str::parse::<f64>` reads it and compared as `f64`
/// values, with `==` and `!=` allowing `f64::EPSILON`.
pub open spec fn holds_whole(c: CondView, w: nat) -> bool
    decreases c,
{
    match c {
        CondView::Always => true,
        CondView::Cmp { op, rhs, .. } => {
            let r = whole_vs_literal(w, rhs);
            match op {
                Op::Lt => r == Relation::Below,
                Op::Le => r != Relation::Above,
                Op::Gt => r == Relation::Above,
                Op::Ge => r != Relation::Below,
                Op::Eq => within_epsilon(w, rhs),
                Op::Ne => !within_epsilon(w, rhs),
            }
        },
        CondView::And(l, r) => holds_whole(*l, w) && holds_whole(*r, w),
        CondView::Or(l, r) => holds_whole(*l, w) || holds_whole(*r, w),
    }
}

proof fn lemma_dot_index_bounds(b: Seq<char>, i: int)
    requires
        0 <= i <= b.len(),
    ensures
        i <= dot_index(b, i) <= b.len(),
        forall|k: int| i <= k < dot_index(b, i) ==> #[trigger] b[k] != '.',
        dot_index(b, i) < b.len() ==> b[dot_index(b, i)] == '.',
    decreases b.len() - i,
{
    if i < b.len() && b[i] != '.' {
        lemma_dot_index_bounds(b, i + 1);
    }
}

fn sub_vec(v: &Vec<char>, from: usize, to: usize) -> (r: Vec<char>)
    requires
        from <= to <= v.len(),
    ensures
        r@ == v@.subrange(from as int, to as int),
{
    let mut r: Vec<char> = Vec::new();
    let mut i = from;
    while i < to
        invariant
            from <= i <= to <= v.len(),
            r@ == v@.subrange(from as int, i as int),
        decreases to - i,
    {
        r.push(v[i]);
        assert(v@.subrange(from as int, i + 1) =~= v@.subrange(from as int, i as int).push(
            v@[i as int],
        ));
        i += 1;
    }
    r
}

/// The decimal digits of `s`, as a number.
fn digits_number(s: &Vec<char>) -> (r: Vec<u32>)
    requires
        all_digits(s@),
    ensures
        limbs_value(r@) == digits_value(s@),
{
    let mut r: Vec<u32> = Vec::new();
    let mut i: usize = 0;
    assert(s@.subrange(0, 0) =~= Seq::<char>::empty());
    while i < s.len()
        invariant
            i <= s.len(),
            all_digits(s@),
            limbs_value(r@) == digits_value(s@.subrange(0, i as int)),
        decreases s.len() - i,
    {
        let c = s[i];
        assert(is_ascii_digit(s@[i as int]));
        let dv = (c as u32 - 0x30) as u64;
        assert(dv == digit_value(c));
        assert(s@.subrange(0, i + 1).drop_last() =~= s@.subrange(0, i as int));
        r = mul_add(&r, 10, dv);
        i += 1;
    }
    assert(s@.subrange(0, s.len() as int) =~= s@);
    r
}

/// `10^k`.
fn ten_power(k: usize) -> (r: Vec<u32>)
    ensures
        limbs_value(r@) == pow10(k as nat),
{
    let mut r = from_u64(1);
    let mut i: usize = 0;
    while i < k
        invariant
            i <= k,
            limbs_value(r@) == pow10(i as nat),
        decreases k - i,
    {
        r = mul_add(&r, 10, 0);
        i += 1;
    }
    r
}

/// The sign of a literal, and its magnitude as `n / d`.
fn literal_parts(lit: &Literal) -> (r: (bool, Vec<u32>, Vec<u32>))
    requires
        valid_literal(lit.text@),
    ensures
        r.0 == literal_negative(lit.text@),
        limbs_value(r.1@) == literal_scaled(lit.text@),
        limbs_value(r.2@) == pow10(literal_scale(lit.text@)),
{
    let t = chars_of(lit.text.as_str());
    let ghost tt = t@;
    let negative = t.len() > 0 && t[0] == '-';
    let start: usize = if t.len() > 0 && (t[0] == '+' || t[0] == '-') {
        1
    } else {
        0
    };
    let b = sub_vec(&t, start, t.len());
    assert(b@ =~= literal_body(tt));
    proof {
        lemma_dot_index_bounds(b@, 0);
    }
    let mut d: usize = 0;
    while d < b.len() && b[d] != '.'
        invariant
            d <= b.len(),
            dot_index(b@, d as int) == dot_index(b@, 0),
        decreases b.len() - d,
    {
        d += 1;
    }
    assert(d as int == dot_index(b@, 0));
    let mut digits = sub_vec(&b, 0, d);
    let mut frac_len: usize = 0;
    if d < b.len() {
        let mut frac = sub_vec(&b, d + 1, b.len());
        frac_len = frac.len();
        digits.append(&mut frac);
    }
    proof {
        let b0 = b@;
        assert(digits@ =~= literal_int_digits(tt) + literal_frac_digits(tt));
        assert(frac_len == literal_frac_digits(tt).len());
        assert forall|k: int| 0 <= k < digits@.len() implies is_ascii_digit(
            #[trigger] digits@[k],
        ) by {
            if k < d {
                assert(digits@[k] == b0[k]);
                assert(b0[k] != '.');
            } else {
                assert(digits@[k] == b0[k + 1]);
                if b0[k + 1] == '.' {
                    assert(b0[d as int] == '.');
                }
            }
        }
    }
    let n = digits_number(&digits);
    let den = ten_power(frac_len);
    (negative, n, den)
}

/// `floor(log2 w)`, and whether `w` is that power of two.
fn binade(w: u32) -> (r: (usize, bool))
    requires
        w >= 1,
    ensures
        r.0 == floor_log2(w as nat),
        r.0 <= 31,
        pow2(r.0 as nat) <= w < pow2((r.0 + 1) as nat),
        r.1 == (w == pow2(r.0 as nat)),
{
    let mut p: usize = 0;
    let mut pw: u64 = 1;
    assert(pow2(0) == 1);
    assert(pow2(32) == 0x1_0000_0000) by {
        reveal_with_fuel(pow2, 33);
    }
    while pw <= (w as u64) / 2
        invariant
            1 <= w,
            pw == pow2(p as nat),
            1 <= pw <= w,
            p <= 31,
            pow2(32) == 0x1_0000_0000,
        decreases w - pw,
    {
        pw = pw * 2;
        p = p + 1;
        assert(pow2(p as nat) == 2 * pow2((p - 1) as nat));
        if p > 31 {
            proof {
                lemma_pow2_at_least(p as nat, 32);
            }
            assert(false);
        }
    }
    assert(pow2((p + 1) as nat) == 2 * pw);
    proof {
        lemma_floor_log2_of(w as nat, p as nat);
    }
    (p, pw == (w as u64))
}

proof fn lemma_pow2_at_least(a: nat, b: nat)
    requires
        a >= b,
    ensures
        pow2(a) >= pow2(b),
    decreases a - b,
{
    if a > b {
        lemma_pow2_at_least((a - 1) as nat, b);
        assert(pow2(a) == 2 * pow2((a - 1) as nat));
    }
}

proof fn lemma_floor_log2_of(w: nat, p: nat)
    requires
        pow2(p) <= w < pow2(p + 1),
    ensures
        floor_log2(w) == p,
    decreases p,
{
    assert(pow2(p + 1) == 2 * pow2(p));
    if p == 0 {
        assert(pow2(0) == 1);
    } else {
        assert(pow2(p) == 2 * pow2((p - 1) as nat));
        lemma_floor_log2_of(w / 2, (p - 1) as nat);
    }
}

/// `w * 2^s`, for `w < 2^(p+1)` and `p + s <= 53`.
#[verifier::spinoff_prover]
fn scaled_whole(w: u32, p: usize, s: usize) -> (r: u64)
    requires
        w < pow2((p + 1) as nat),
        p + s <= 53,
    ensures
        r == w * pow2(s as nat),
        r < 0x40_0000_0000_0000,
{
    let mut r: u64 = w as u64;
    let mut i: usize = 0;
    assert(pow2(0) == 1);
    proof {
        lemma_pow2_53();
    }
    while i < s
        invariant
            i <= s,
            p + s <= 53,
            pow2(53) == 0x20_0000_0000_0000,
            r == w * pow2(i as nat),
            r < pow2((p + 1 + i) as nat),
        decreases s - i,
    {
        proof {
            lemma_pow2_at_least(53, (p + 1 + i) as nat);
            assert(pow2((p + 1 + i + 1) as nat) == 2 * pow2((p + 1 + i) as nat));
            assert(pow2((i + 1) as nat) == 2 * pow2(i as nat));
            assert(w * (2 * pow2(i as nat)) == 2 * (w * pow2(i as nat))) by (nonlinear_arith);
        }
        r = r * 2;
        i += 1;
    }
    proof {
        lemma_pow2_at_least(54, (p + 1 + s) as nat);
    }
    r
}

proof fn lemma_pow2_53()
    ensures
        pow2(53) == 0x20_0000_0000_0000,
        pow2(54) == 0x40_0000_0000_0000,
{
    reveal_with_fuel(pow2, 55);
}

/// Whether `n / d` rounds to an `f64` above `w`.
fn exceeds(w: u32, n: &Vec<u32>, d: &Vec<u32>) -> (b: bool)
    ensures
        b == rounds_above(w as nat, limbs_value(n@), limbs_value(d@)),
{
    if w == 0 {
        let lhs = times_pow2(n, 1075);
        compare(&lhs, d) == Order::Greater
    } else {
        let (p, _) = binade(w);
        let s = 53 - p;
        let ws = scaled_whole(w, p, s);
        let lhs = times_pow2(n, s);
        let rhs = mul_add(d, ws + 1, 0);
        proof {
            let dd = limbs_value(d@);
            assert(dd * (ws + 1) == (ws + 1) * dd) by (nonlinear_arith);
        }
        compare(&lhs, &rhs) == Order::Greater
    }
}

/// Whether `n / d` rounds to an `f64` below `w`.
fn falls_short(w: u32, n: &Vec<u32>, d: &Vec<u32>) -> (b: bool)
    ensures
        b == rounds_below(w as nat, limbs_value(n@), limbs_value(d@)),
{
    if w == 0 {
        false
    } else {
        let (p, power) = binade(w);
        let s = if power {
            54 - p
        } else {
            53 - p
        };
        let ws = if power {
            scaled_whole(w, p, 53 - p) * 2
        } else {
            scaled_whole(w, p, s)
        };
        proof {
            if power {
                let x = pow2((53 - p) as nat);
                assert(pow2(s as nat) == 2 * x);
                assert(w * (2 * x) == 2 * (w * x)) by (nonlinear_arith);
            }
        }
        let lhs = sum(&times_pow2(n, s), d);
        let rhs = mul_add(d, ws, 0);
        proof {
            let dd = limbs_value(d@);
            assert(dd * ws == ws * dd) by (nonlinear_arith);
        }
        compare(&lhs, &rhs) == Order::Less
    }
}

/// Compares the whole number `w` with the `f64` that `str::parse::<f64>`
/// reads from the literal.
pub fn compare_whole(w: u32, lit: &Literal) -> (r: Relation)
    requires
        valid_literal(lit.text@),
    ensures
        r == whole_vs_literal(w as nat, lit.text@),
{
    let (negative, n, d) = literal_parts(lit);
    if negative {
        if w == 0 && !exceeds(0, &n, &d) {
            Relation::Equal
        } else {
            Relation::Above
        }
    } else if exceeds(w, &n, &d) {
        Relation::Below
    } else if falls_short(w, &n, &d) {
        Relation::Above
    } else {
        Relation::Equal
    }
}

/// Whether `(w - v).abs() < f64::EPSILON` for the `f64` value `v` of the
/// literal.
pub fn within_epsilon_of(w: u32, lit: &Literal) -> (b: bool)
    requires
        valid_literal(lit.text@),
    ensures
        b == within_epsilon(w as nat, lit.text@),
{
    let (negative, n, d) = literal_parts(lit);
    if w == 0 {
        let lhs = times_pow2(&n, 106);
        let rhs = mul_add(&d, 0x3F_FFFF_FFFF_FFFF, 0);
        proof {
            let dd = limbs_value(d@);
            assert(dd * 0x3F_FFFF_FFFF_FFFF == 0x3F_FFFF_FFFF_FFFF * dd) by (nonlinear_arith);
        }
        compare(&lhs, &rhs) == Order::Less
    } else if negative {
        false
    } else if w == 1 {
        let low = mul_add(&d, 0x3F_FFFF_FFFF_FFFD, 0);
        let high = mul_add(&d, 0x20_0000_0000_0001, 0);
        proof {
            let dd = limbs_value(d@);
            assert(dd * 0x3F_FFFF_FFFF_FFFD == 0x3F_FFFF_FFFF_FFFD * dd) by (nonlinear_arith);
            assert(dd * 0x20_0000_0000_0001 == 0x20_0000_0000_0001 * dd) by (nonlinear_arith);
        }
        compare(&times_pow2(&n, 54), &low) == Order::Greater && compare(&times_pow2(&n, 53), &high)
            != Order::Greater
    } else {
        compare_whole(w, lit) == Relation::Equal
    }
}

impl Cond {
    /// Whether the condition holds when the speed is the whole number `speed`,
    /// each literal read and compared as an `f64`.
    pub fn eval_whole(&self, speed: u32) -> (b: bool)
        requires
            literals_valid(self@),
        ensures
            b == holds_whole(self@, speed as nat),
        decreases self,
    {
        match self {
            Cond::Always => true,
            Cond::Cmp { op, rhs, .. } => {
                let r = compare_whole(speed, rhs);
                match op {
                    Op::Lt => r == Relation::Below,
                    Op::Le => r != Relation::Above,
                    Op::Gt => r == Relation::Above,
                    Op::Ge => r != Relation::Below,
                    Op::Eq => within_epsilon_of(speed, rhs),
                    Op::Ne => !within_epsilon_of(speed, rhs),
                }
            },
            Cond::And(l, r) => l.eval_whole(speed) && r.eval_whole(speed),
            Cond::Or(l, r) => l.eval_whole(speed) || r.eval_whole(speed),
        }
    }
}

// ---------------------------------------------------------------------------
// Facts about positions.
// ---------------------------------------------------------------------------
pub proof fn lemma_skip_ws_bounds(s: Seq<char>, i: int)
    requires
        0 <= i <= s.len(),
    ensures
        i <= skip_ws(s, i) <= s.len(),
    decreases s.len() - i,
{
    if i < s.len() && is_ws(s[i]) {
        lemma_skip_ws_bounds(s, i + 1);
    }
}

pub proof fn lemma_ident_end_bounds(s: Seq<char>, i: int)
    requires
        0 <= i <= s.len(),
    ensures
        i <= ident_end(s, i) <= s.len(),
    decreases s.len() - i,
{
    if i < s.len() && is_ident_char(s[i]) {
        lemma_ident_end_bounds(s, i + 1);
    }
}

pub proof fn lemma_number_end_bounds(s: Seq<char>, i: int)
    requires
        0 <= i <= s.len(),
    ensures
        i <= number_end(s, i) <= s.len(),
    decreases s.len() - i,
{
    if i < s.len() && is_number_char(s[i]) {
        lemma_number_end_bounds(s, i + 1);
    }
}

/// A comparison that parses consumes input and stays within it.
pub proof fn lemma_comparison_advances(s: Seq<char>, i: int)
    ensures
        0 <= i <= s.len() ==> (spec_parse_comparison(s, i) matches Ok((_, j)) ==> i < j <= s.len()),
{
    if 0 <= i <= s.len() {
        lemma_skip_ws_bounds(s, i);
        let j0 = skip_ws(s, i);
        lemma_ident_end_bounds(s, j0);
        if let Ok((_, i1)) = spec_parse_ident(s, i) {
            lemma_skip_ws_bounds(s, i1);
            let j1 = skip_ws(s, i1);
            reveal_strlit("<=");
            reveal_strlit(">=");
            reveal_strlit("==");
            reveal_strlit("!=");
            reveal_strlit("<");
            reveal_strlit(">");
            if let Ok((_, i2)) = spec_parse_op(s, i1) {
                lemma_skip_ws_bounds(s, i2);
                lemma_number_end_bounds(s, skip_ws(s, i2));
            }
        }
    }
}

/// The tail of an `&&` chain never ends before it starts.
pub proof fn lemma_and_tail_advances(s: Seq<char>, acc: CondView, i: int)
    requires
        0 <= i <= s.len(),
    ensures
        spec_and_tail(s, acc, i) matches Ok((_, j)) ==> i <= j <= s.len(),
    decreases s.len() - i,
{
    lemma_skip_ws_bounds(s, i);
    let k = skip_ws(s, i);
    reveal_strlit("&&");
    if starts_at(s, k, "&&"@) {
        lemma_comparison_advances(s, k + 2);
        if let Ok((c, j)) = spec_parse_comparison(s, k + 2) {
            lemma_and_tail_advances(s, CondView::And(Box::new(acc), Box::new(c)), j);
        }
    }
}

pub proof fn lemma_and_advances(s: Seq<char>, i: int)
    ensures
        0 <= i <= s.len() ==> (spec_parse_and(s, i) matches Ok((_, j)) ==> i < j <= s.len()),
{
    if 0 <= i <= s.len() {
        lemma_comparison_advances(s, i);
        if let Ok((c, j)) = spec_parse_comparison(s, i) {
            lemma_and_tail_advances(s, c, j);
        }
    }
}

pub proof fn lemma_or_tail_advances(s: Seq<char>, acc: CondView, i: int)
    requires
        0 <= i <= s.len(),
    ensures
        spec_or_tail(s, acc, i) matches Ok((_, j)) ==> i <= j <= s.len(),
    decreases s.len() - i,
{
    lemma_skip_ws_bounds(s, i);
    let k = skip_ws(s, i);
    reveal_strlit("||");
    if starts_at(s, k, "||"@) {
        lemma_and_advances(s, k + 2);
        if let Ok((c, j)) = spec_parse_and(s, k + 2) {
            lemma_or_tail_advances(s, CondView::Or(Box::new(acc), Box::new(c)), j);
        }
    }
}

// ---------------------------------------------------------------------------
// The parser.
// ---------------------------------------------------------------------------
/// `e` reports failure `f` on `input`.
pub open spec fn reports(e: ParseError, f: Failure, input: Seq<char>) -> bool {
    e.msg@ == failure_message(f) && e.input@ == input
}

/// `v[i..]` begins with `lit`.
fn starts_with_at(v: &Vec<char>, i: usize, lit: &Vec<char>) -> (b: bool)
    requires
        i <= v.len(),
    ensures
        b == starts_at(v@, i as int, lit@),
{
    if lit.len() > v.len() - i {
        return false;
    }
    let mut k: usize = 0;
    while k < lit.len()
        invariant
            i + lit.len() <= v.len(),
            k <= lit.len(),
            forall|m: int| 0 <= m < k ==> v@[i + m] == lit@[m],
        decreases lit.len() - k,
    {
        if v[i + k] != lit[k] {
            assert(v@.subrange(i as int, i + lit.len())[k as int] != lit@[k as int]);
            return false;
        }
        k += 1;
    }
    assert(v@.subrange(i as int, i + lit.len()) =~= lit@);
    true
}

/// The characters `v[from..to]` are a number literal `str::parse::<f64>` accepts.
fn is_valid_literal(v: &Vec<char>, from: usize, to: usize) -> (b: bool)
    requires
        from <= to <= v.len(),
    ensures
        b == valid_literal(v@.subrange(from as int, to as int)),
{
    let ghost t = v@.subrange(from as int, to as int);
    let mut start = from;
    if from < to && (v[from] == '+' || v[from] == '-') {
        start = from + 1;
    }
    let ghost body = v@.subrange(start as int, to as int);
    assert(body =~= literal_body(t));
    let mut seen_dot = false;
    let mut seen_digit = false;
    let mut i = start;
    while i < to
        invariant
            from <= start <= i <= to <= v.len(),
            t == v@.subrange(from as int, to as int),
            body == v@.subrange(start as int, to as int),
            body == literal_body(t),
            forall|k: int| 0 <= k < i - start ==> is_ascii_digit(#[trigger] body[k]) || body[k] == '.',
            forall|k1: int, k2: int|
                0 <= k1 < i - start && 0 <= k2 < i - start && #[trigger] body[k1] == '.'
                    && #[trigger] body[k2] == '.' ==> k1 == k2,
            seen_dot ==> exists|k: int| 0 <= k < i - start && #[trigger] body[k] == '.',
            !seen_dot ==> forall|k: int| 0 <= k < i - start ==> #[trigger] body[k] != '.',
            seen_digit ==> exists|k: int| 0 <= k < i - start && is_ascii_digit(#[trigger] body[k]),
            !seen_digit ==> forall|k: int| 0 <= k < i - start ==> !is_ascii_digit(#[trigger] body[k]),
        decreases to - i,
    {
        let c = v[i];
        assert(body[i - start] == c);
        if is_ascii_digit_char(c) {
            seen_digit = true;
        } else if c == '.' {
            if seen_dot {
                let ghost k = choose|k: int| 0 <= k < i - start && #[trigger] body[k] == '.';
                assert(body[k] == '.' && body[i - start] == '.');
                return false;
            }
            seen_dot = true;
        } else {
            assert(!(is_ascii_digit(body[i - start]) || body[i - start] == '.'));
            return false;
        }
        i += 1;
    }
    seen_digit
}

struct Parser<'a> {
    src: &'a str,
    s: Vec<char>,
    pos: usize,
}

impl<'a> Parser<'a> {
    fn err(&self, msg: String) -> (e: ParseError)
        ensures
            e.msg@ == msg@,
            e.input@ == self.src@,
    {
        ParseError { msg, input: self.src.to_owned() }
    }

    fn skip_ws(&mut self)
        requires
            old(self).pos <= old(self).s.len(),
        ensures
            final(self).pos == skip_ws(old(self).s@, old(self).pos as int),
            final(self).s == old(self).s,
            final(self).src == old(self).src,
    {
        let ghost i0 = self.pos as int;
        while self.pos < self.s.len() && is_ws_char(self.s[self.pos])
            invariant
                self.s == old(self).s,
                self.src == old(self).src,
                i0 == old(self).pos,
                i0 <= self.pos <= self.s.len(),
                skip_ws(self.s@, self.pos as int) == skip_ws(self.s@, i0),
            decreases self.s.len() - self.pos,
        {
            self.pos = self.pos + 1;
        }
    }

    fn eat(&mut self, token: &str) -> (b: bool)
        requires
            old(self).pos <= old(self).s.len(),
        ensures
            ({
                let k = skip_ws(old(self).s@, old(self).pos as int);
                &&& b == starts_at(old(self).s@, k, token@)
                &&& final(self).pos == (if b {
                    k + token@.len()
                } else {
                    k
                })
            }),
            final(self).pos <= final(self).s.len(),
            final(self).s == old(self).s,
            final(self).src == old(self).src,
    {
        self.skip_ws();
        proof {
            lemma_skip_ws_bounds(self.s@, old(self).pos as int);
        }
        let tok = chars_of(token);
        if starts_with_at(&self.s, self.pos, &tok) {
            self.pos = self.pos + tok.len();
            true
        } else {
            false
        }
    }

    fn parse_or(&mut self) -> (r: Result<Cond, ParseError>)
        requires
            old(self).pos <= old(self).s.len(),
        ensures
            final(self).s == old(self).s,
            final(self).src == old(self).src,
            final(self).pos <= final(self).s.len(),
            match spec_parse_or(old(self).s@, old(self).pos as int) {
                Ok((c, j)) => r matches Ok(x) && x@ == c && final(self).pos == j && literals_valid(c),
                Err(f) => r matches Err(e) && reports(e, f, old(self).src@),
            },
        decreases old(self).s.len() - old(self).pos, 2int,
    {
        let ghost target = spec_parse_or(self.s@, self.pos as int);
        let mut lhs = self.parse_and()?;
        loop
            invariant
                self.s == old(self).s,
                self.src == old(self).src,
                self.pos <= self.s.len(),
                target == spec_parse_or(old(self).s@, old(self).pos as int),
                target == spec_or_tail(self.s@, lhs@, self.pos as int),
                literals_valid(lhs@),
            decreases self.s.len() - self.pos,
        {
            let ghost before = self.pos as int;
            proof {
                reveal_strlit("||");
                lemma_skip_ws_bounds(self.s@, before);
            }
            if !self.eat("||") {
                return Ok(lhs);
            }
            proof {
                lemma_and_advances(self.s@, self.pos as int);
            }
            let rhs = self.parse_and()?;
            lhs = Cond::Or(Box::new(lhs), Box::new(rhs));
        }
    }

    fn parse_and(&mut self) -> (r: Result<Cond, ParseError>)
        requires
            old(self).pos <= old(self).s.len(),
        ensures
            final(self).s == old(self).s,
            final(self).src == old(self).src,
            final(self).pos <= final(self).s.len(),
            match spec_parse_and(old(self).s@, old(self).pos as int) {
                Ok((c, j)) => r matches Ok(x) && x@ == c && final(self).pos == j && literals_valid(c),
                Err(f) => r matches Err(e) && reports(e, f, old(self).src@),
            },
        decreases old(self).s.len() - old(self).pos, 1int,
    {
        let ghost target = spec_parse_and(self.s@, self.pos as int);
        let mut lhs = self.parse_comparison()?;
        loop
            invariant
                self.s == old(self).s,
                self.src == old(self).src,
                self.pos <= self.s.len(),
                target == spec_parse_and(old(self).s@, old(self).pos as int),
                target == spec_and_tail(self.s@, lhs@, self.pos as int),
                literals_valid(lhs@),
            decreases self.s.len() - self.pos,
        {
            let ghost before = self.pos as int;
            proof {
                reveal_strlit("&&");
                lemma_skip_ws_bounds(self.s@, before);
            }
            if !self.eat("&&") {
                return Ok(lhs);
            }
            proof {
                lemma_comparison_advances(self.s@, self.pos as int);
            }
            let rhs = self.parse_comparison()?;
            lhs = Cond::And(Box::new(lhs), Box::new(rhs));
        }
    }

    fn parse_comparison(&mut self) -> (r: Result<Cond, ParseError>)
        requires
            old(self).pos <= old(self).s.len(),
        ensures
            final(self).s == old(self).s,
            final(self).src == old(self).src,
            final(self).pos <= final(self).s.len(),
            match spec_parse_comparison(old(self).s@, old(self).pos as int) {
                Ok((c, j)) => r matches Ok(x) && x@ == c && final(self).pos == j && literals_valid(c),
                Err(f) => r matches Err(e) && reports(e, f, old(self).src@),
            },
        decreases old(self).s.len() - old(self).pos, 0int,
    {
        let var = self.parse_ident()?;
        let op = self.parse_op()?;
        let rhs = self.parse_number()?;
        Ok(Cond::Cmp { var, op, rhs })
    }

    fn parse_ident(&mut self) -> (r: Result<Var, ParseError>)
        requires
            old(self).pos <= old(self).s.len(),
        ensures
            final(self).s == old(self).s,
            final(self).src == old(self).src,
            final(self).pos <= final(self).s.len(),
            match spec_parse_ident(old(self).s@, old(self).pos as int) {
                Ok((v, j)) => r == Ok::<Var, ParseError>(v) && final(self).pos == j,
                Err(f) => r matches Err(e) && reports(e, f, old(self).src@),
            },
    {
        self.skip_ws();
        proof {
            lemma_skip_ws_bounds(self.s@, old(self).pos as int);
        }
        let start = self.pos;
        let mut end = start;
        while end < self.s.len() && (is_ascii_alpha_char(self.s[end]) || self.s[end] == '_')
            invariant
                start <= end <= self.s.len(),
                ident_end(self.s@, end as int) == ident_end(self.s@, start as int),
            decreases self.s.len() - end,
        {
            end = end + 1;
        }
        if end == start {
            return Err(self.err(String::from_str("expected identifier")));
        }
        let head = string_from_chars(&self.s, start, end);
        let speed = chars_of("speed");
        if end - start == speed.len() && starts_with_at(&self.s, start, &speed) {
            self.pos = end;
            Ok(Var::Speed)
        } else {
            assert(!(self.s@.subrange(start as int, end as int) == "speed"@)) by {
                if self.s@.subrange(start as int, end as int) == "speed"@ {
                    assert(starts_at(self.s@, start as int, speed@));
                }
            }
            let mut msg = String::from_str("unknown identifier ");
            msg.append(quote(head.as_str()).as_str());
            Err(self.err(msg))
        }
    }

    fn parse_op(&mut self) -> (r: Result<Op, ParseError>)
        requires
            old(self).pos <= old(self).s.len(),
        ensures
            final(self).s == old(self).s,
            final(self).src == old(self).src,
            final(self).pos <= final(self).s.len(),
            match spec_parse_op(old(self).s@, old(self).pos as int) {
                Ok((op, j)) => r == Ok::<Op, ParseError>(op) && final(self).pos == j,
                Err(f) => r matches Err(e) && reports(e, f, old(self).src@),
            },
    {
        self.skip_ws();
        proof {
            lemma_skip_ws_bounds(self.s@, old(self).pos as int);
            reveal_strlit("<=");
            reveal_strlit(">=");
            reveal_strlit("==");
            reveal_strlit("!=");
            reveal_strlit("<");
            reveal_strlit(">");
        }
        let le = chars_of("<=");
        if starts_with_at(&self.s, self.pos, &le) {
            self.pos = self.pos + 2;
            return Ok(Op::Le);
        }
        let ge = chars_of(">=");
        if starts_with_at(&self.s, self.pos, &ge) {
            self.pos = self.pos + 2;
            return Ok(Op::Ge);
        }
        let eq = chars_of("==");
        if starts_with_at(&self.s, self.pos, &eq) {
            self.pos = self.pos + 2;
            return Ok(Op::Eq);
        }
        let ne = chars_of("!=");
        if starts_with_at(&self.s, self.pos, &ne) {
            self.pos = self.pos + 2;
            return Ok(Op::Ne);
        }
        let lt = chars_of("<");
        if starts_with_at(&self.s, self.pos, &lt) {
            self.pos = self.pos + 1;
            return Ok(Op::Lt);
        }
        let gt = chars_of(">");
        if starts_with_at(&self.s, self.pos, &gt) {
            self.pos = self.pos + 1;
            return Ok(Op::Gt);
        }
        Err(self.err(String::from_str("expected comparison operator")))
    }

    fn parse_number(&mut self) -> (r: Result<Literal, ParseError>)
        requires
            old(self).pos <= old(self).s.len(),
        ensures
            final(self).s == old(self).s,
            final(self).src == old(self).src,
            final(self).pos <= final(self).s.len(),
            match spec_parse_number(old(self).s@, old(self).pos as int) {
                Ok((lit, j)) => r matches Ok(x) && x.text@ == lit && final(self).pos == j
                    && valid_literal(lit),
                Err(f) => r matches Err(e) && reports(e, f, old(self).src@),
            },
    {
        self.skip_ws();
        proof {
            lemma_skip_ws_bounds(self.s@, old(self).pos as int);
        }
        let start = self.pos;
        let mut end = start;
        while end < self.s.len() && (is_ascii_digit_char(self.s[end]) || self.s[end] == '.'
            || self.s[end] == '-' || self.s[end] == '+')
            invariant
                start <= end <= self.s.len(),
                number_end(self.s@, end as int) == number_end(self.s@, start as int),
            decreases self.s.len() - end,
        {
            end = end + 1;
        }
        if end == start {
            return Err(self.err(String::from_str("expected number")));
        }
        let head = string_from_chars(&self.s, start, end);
        if is_valid_literal(&self.s, start, end) {
            self.pos = end;
            Ok(Literal { text: head })
        } else {
            let mut msg = String::from_str("bad number literal ");
            msg.append(quote(head.as_str()).as_str());
            Err(self.err(msg))
        }
    }
}

/// Parses a condition.  The result is exactly what [`spec_parse`] gives for
/// the input: the condition it denotes, or the first failure, reported with
/// its message and the whole input.
pub fn parse(input: &str) -> (r: Result<Cond, ParseError>)
    ensures
        match spec_parse(input@) {
            Ok(c) => r matches Ok(x) && x@ == c && literals_valid(c),
            Err(f) => r matches Err(e) && reports(e, f, input@),
        },
{
    let chars = chars_of(input);
    let mut a: usize = 0;
    while a < chars.len() && is_ws_char(chars[a])
        invariant
            a <= chars.len(),
            skip_ws(chars@, a as int) == skip_ws(chars@, 0),
        decreases chars.len() - a,
    {
        a = a + 1;
    }
    let mut b: usize = chars.len();
    while b > 0 && is_ws_char(chars[b - 1])
        invariant
            b <= chars.len(),
            skip_ws_back(chars@, b as int) == skip_ws_back(chars@, chars.len() as int),
        decreases b,
    {
        b = b - 1;
    }
    let mut s: Vec<char> = Vec::new();
    if a < b {
        let mut i = a;
        while i < b
            invariant
                a <= i <= b <= chars.len(),
                s@ == chars@.subrange(a as int, i as int),
            decreases b - i,
        {
            s.push(chars[i]);
            assert(chars@.subrange(a as int, i + 1) =~= chars@.subrange(a as int, i as int).push(
                chars@[i as int],
            ));
            i += 1;
        }
    }
    assert(s@ =~= trim(input@));
    let mut p = Parser { src: input, s, pos: 0 };
    let cond = p.parse_or()?;
    if p.pos < p.s.len() {
        let rest = string_from_chars(&p.s, p.pos, p.s.len());
        let mut msg = String::from_str("unexpected trailing input ");
        msg.append(quote(rest.as_str()).as_str());
        return Err(p.err(msg));
    }
    Ok(cond)
}

} // verus!
