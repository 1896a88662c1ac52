//! Character classes, decimal digits and small string builders shared by the
//! condition parser, the instance-id helpers and the label sanitiser.
use vstd::prelude::*;

verus! {

/// The Unicode `White_Space` property, which is the set of characters that
/// `char::is_whitespace` (and therefore `str::trim`) recognises.
pub open spec fn is_ws(c: char) -> bool {
    let v = c as u32;
    ||| 0x09 <= v <= 0x0d
    ||| v == 0x20
    ||| v == 0x85
    ||| v == 0xa0
    ||| v == 0x1680
    ||| 0x2000 <= v <= 0x200a
    ||| v == 0x2028
    ||| v == 0x2029
    ||| v == 0x202f
    ||| v == 0x205f
    ||| v == 0x3000
}

pub open spec fn is_ascii_alpha(c: char) -> bool {
    let v = c as u32;
    (0x41 <= v <= 0x5a) || (0x61 <= v <= 0x7a)
}

pub open spec fn is_ascii_digit(c: char) -> bool {
    let v = c as u32;
    0x30 <= v <= 0x39
}

pub open spec fn is_ascii_alnum(c: char) -> bool {
    is_ascii_alpha(c) || is_ascii_digit(c)
}

/// Numeric value of a decimal digit character.
pub open spec fn digit_value(c: char) -> nat {
    ((c as u32) - 0x30) as nat
}

/// The character of a decimal digit `0 <= d < 10`.
pub open spec fn digit_char(d: nat) -> char {
    (d + 0x30) as char
}

pub open spec fn all_digits(s: Seq<char>) -> bool {
    forall|i: int| 0 <= i < s.len() ==> is_ascii_digit(#[trigger] s[i])
}

/// The natural number written by a string of decimal digits (most significant first).
pub open spec fn digits_value(s: Seq<char>) -> nat
    decreases s.len(),
{
    if s.len() == 0 {
        0
    } else {
        10 * digits_value(s.drop_last()) + digit_value(s.last())
    }
}

/// `10` to the power `k`.
pub open spec fn pow10(k: nat) -> nat
    decreases k,
{
    if k == 0 {
        1
    } else {
        10 * pow10((k - 1) as nat)
    }
}

/// The shortest decimal rendering of `n`, as `u32::to_string` produces it.
pub open spec fn decimal(n: nat) -> Seq<char>
    decreases n,
{
    if n < 10 {
        seq![digit_char(n)]
    } else {
        decimal(n / 10).push(digit_char(n % 10))
    }
}

/// What `str::parse::<u32>` accepts: an optional `+`, then one or more
/// decimal digits whose value fits in a `u32`.
pub open spec fn parse_u32_spec(s: Seq<char>) -> Option<u32> {
    let body = if s.len() > 0 && s[0] == '+' {
        s.drop_first()
    } else {
        s
    };
    if body.len() > 0 && all_digits(body) && digits_value(body) <= u32::MAX {
        Some(digits_value(body) as u32)
    } else {
        None
    }
}

pub proof fn lemma_pow10_positive(k: nat)
    ensures
        pow10(k) >= 1,
    decreases k,
{
    if k > 0 {
        lemma_pow10_positive((k - 1) as nat);
    }
}

/// Appending a digit multiplies the value by ten and adds the digit.
pub proof fn lemma_digits_value_push(s: Seq<char>, c: char)
    ensures
        digits_value(s.push(c)) == 10 * digits_value(s) + digit_value(c),
{
    assert(s.push(c).drop_last() =~= s);
}

/// The value of a concatenation: `value(a ++ b) == value(a) * 10^|b| + value(b)`.
pub proof fn lemma_digits_value_concat(a: Seq<char>, b: Seq<char>)
    ensures
        digits_value(a + b) == digits_value(a) * pow10(b.len()) + digits_value(b),
    decreases b.len(),
{
    if b.len() == 0 {
        assert(a + b =~= a);
        assert(pow10(0) == 1);
        assert(digits_value(b) == 0);
        assert(digits_value(a) * 1 == digits_value(a));
    } else {
        let bl = b.drop_last();
        lemma_digits_value_concat(a, bl);
        assert((a + b).drop_last() =~= a + bl);
        assert((a + b).last() == b.last());
        let x = digits_value(a);
        let p = pow10(bl.len());
        let d = digit_value(b.last());
        assert(pow10(b.len()) == 10 * p);
        assert(b.drop_last() == bl);
        assert(digits_value(b) == 10 * digits_value(bl) + d);
        assert(digits_value(a + b) == 10 * digits_value(a + bl) + d);
        assert(digits_value(a + bl) == x * p + digits_value(bl));
        assert(10 * (x * p + digits_value(bl)) + d == x * (10 * p) + (10 * digits_value(bl) + d))
            by (nonlinear_arith);
    }
}

pub fn is_ws_char(c: char) -> (b: bool)
    ensures
        b == is_ws(c),
{
    let v = c as u32;
    (0x09 <= v && v <= 0x0d) || v == 0x20 || v == 0x85 || v == 0xa0 || v == 0x1680 || (0x2000
        <= v && v <= 0x200a) || v == 0x2028 || v == 0x2029 || v == 0x202f || v == 0x205f || v
        == 0x3000
}

pub fn is_ascii_alpha_char(c: char) -> (b: bool)
    ensures
        b == is_ascii_alpha(c),
{
    let v = c as u32;
    (0x41 <= v && v <= 0x5a) || (0x61 <= v && v <= 0x7a)
}

pub fn is_ascii_digit_char(c: char) -> (b: bool)
    ensures
        b == is_ascii_digit(c),
{
    let v = c as u32;
    0x30 <= v && v <= 0x39
}

/// The characters of `s`, in order.
pub fn chars_of(s: &str) -> (v: Vec<char>)
    ensures
        v@ == s@,
{
    broadcast use vstd::string::axiom_spec_iter;

    let mut v: Vec<char> = Vec::new();
    for c in it: s.chars()
        invariant
            it.seq() == s@,
            v@ == it.seq().subrange(0, it.index() as int),
    {
        v.push(c);
    }
    v
}

/// `String::push` appends one character.
pub assume_specification[ String::push ](s: &mut String, ch: char)
    ensures
        final(s)@ == old(s)@.push(ch),
;

/// What `format!("{:?}", s)` renders for a string slice: the text in double
/// quotes with Rust's debug escapes applied.
pub uninterp spec fn debug_quoted(s: Seq<char>) -> Seq<char>;

/// Renders `s` with `Debug` formatting (`format!("{:?}", s)`); the result is
/// named `debug_quoted(s@)` and nothing else is claimed about its characters.
#[verifier::external_body]
pub fn quote(s: &str) -> (r: String)
    ensures
        r@ == debug_quoted(s@),
{
    format!("{:?}", s)
}

/// The characters of an optional string.
pub open spec fn opt_chars(o: Option<String>) -> Option<Seq<char>> {
    match o {
        Some(s) => Some(s@),
        None => None,
    }
}

/// Two strings hold the same characters.
pub fn str_eq(a: &str, b: &str) -> (r: bool)
    ensures
        r == (a@ == b@),
{
    let x = chars_of(a);
    let y = chars_of(b);
    if x.len() != y.len() {
        return false;
    }
    let mut i: usize = 0;
    while i < x.len()
        invariant
            x@ == a@,
            y@ == b@,
            x.len() == y.len(),
            i <= x.len(),
            forall|k: int| 0 <= k < i ==> x@[k] == y@[k],
        decreases x.len() - i,
    {
        if x[i] != y[i] {
            assert(x@[i as int] != y@[i as int]);
            assert(x@ != y@);
            assert(a@ != b@);
            return false;
        }
        i += 1;
    }
    assert(x@ =~= y@);
    true
}

/// A `String` holding the characters `v[from..to]`.
pub fn string_from_chars(v: &Vec<char>, from: usize, to: usize) -> (s: String)
    requires
        from <= to <= v.len(),
    ensures
        s@ == v@.subrange(from as int, to as int),
{
    let mut s = String::new();
    let mut i = from;
    while i < to
        invariant
            from <= i <= to <= v.len(),
            s@ == v@.subrange(from as int, i as int),
        decreases to - i,
    {
        s.push(v[i]);
        assert(v@.subrange(from as int, i + 1) =~= v@.subrange(from as int, i as int).push(
            v@[i as int],
        ));
        i += 1;
    }
    s
}

/// The decimal rendering of `n`, as `n.to_string()` produces it.
pub fn u64_to_decimal(n: u64) -> (s: String)
    ensures
        s@ == decimal(n as nat),
{
    let mut digits: Vec<char> = Vec::new();
    let mut m = n;
    // Collect digits from least significant to most significant.
    while m >= 10
        invariant
            decimal(n as nat) == decimal(m as nat) + digits@.reverse(),
        decreases m,
    {
        let d = m % 10;
        let c = ((d + 0x30) as u8) as char;
        assert(c == digit_char(d as nat));
        proof {
            assert(decimal(m as nat) == decimal((m / 10) as nat).push(digit_char((m % 10) as nat)));
            assert(digits@.push(c).reverse() =~= seq![c] + digits@.reverse());
            assert(decimal(m as nat) + digits@.reverse() =~= decimal((m / 10) as nat) + (seq![c]
                + digits@.reverse()));
        }
        digits.push(c);
        m = m / 10;
    }
    let c0 = ((m + 0x30) as u8) as char;
    assert(c0 == digit_char(m as nat));
    let mut s = String::new();
    s.push(c0);
    let mut i = digits.len();
    while i > 0
        invariant
            i <= digits.len(),
            s@ == seq![c0] + digits@.reverse().subrange(0, (digits.len() - i) as int),
        decreases i,
    {
        i -= 1;
        s.push(digits[i]);
        assert(digits@.reverse().subrange(0, (digits.len() - i) as int) =~= digits@.reverse().subrange(
            0,
            (digits.len() - i - 1) as int,
        ).push(digits@[i as int]));
    }
    assert(digits@.reverse().subrange(0, digits.len() as int) =~= digits@.reverse());
    assert(decimal(m as nat) == seq![c0]);
    s
}

/// The decimal rendering of a `u32`.
pub fn u32_to_decimal(n: u32) -> (s: String)
    ensures
        s@ == decimal(n as nat),
{
    u64_to_decimal(n as u64)
}

/// Parses a decimal `u32` exactly as `str::parse::<u32>` does.
pub fn parse_u32_chars(v: &Vec<char>, from: usize, to: usize) -> (r: Option<u32>)
    requires
        from <= to <= v.len(),
    ensures
        r == parse_u32_spec(v@.subrange(from as int, to as int)),
{
    let ghost s = v@.subrange(from as int, to as int);
    let mut start = from;
    if from < to && v[from] == '+' {
        start = from + 1;
    }
    let ghost body = v@.subrange(start as int, to as int);
    assert(body =~= (if s.len() > 0 && s[0] == '+' {
        s.drop_first()
    } else {
        s
    }));
    if start == to {
        return None;
    }
    let mut acc: u64 = 0;
    let mut i = start;
    while i < to
        invariant
            from <= start <= i <= to <= v.len(),
            body == v@.subrange(start as int, to as int),
            s == v@.subrange(from as int, to as int),
            body == (if s.len() > 0 && s[0] == '+' {
                s.drop_first()
            } else {
                s
            }),
            all_digits(v@.subrange(start as int, i as int)),
            acc == digits_value(v@.subrange(start as int, i as int)),
            acc <= u32::MAX,
        decreases to - i,
    {
        let c = v[i];
        if !is_ascii_digit_char(c) {
            assert(body[i - start] == c);
            assert(!is_ascii_digit(body[i - start]));
            assert(!all_digits(body));
            return None;
        }
        let d = (c as u32 - 0x30) as u64;
        assert(d == digit_value(c));
        proof {
            assert(v@.subrange(start as int, i + 1) =~= v@.subrange(start as int, i as int).push(c));
            lemma_digits_value_push(v@.subrange(start as int, i as int), c);
        }
        acc = acc * 10 + d;
        if acc > 0xffff_ffff {
            proof {
                // Any further digits only make the value larger.
                lemma_digits_value_concat(
                    v@.subrange(start as int, i + 1),
                    v@.subrange(i + 1, to as int),
                );
                lemma_pow10_positive((to - i - 1) as nat);
                assert(v@.subrange(start as int, i + 1) + v@.subrange(i + 1, to as int) =~= body);
                let x = digits_value(v@.subrange(start as int, i + 1));
                let p = pow10((to - i - 1) as nat);
                assert(x == acc);
                assert(x * p >= x) by (nonlinear_arith)
                    requires
                        p >= 1,
                ;
                assert(digits_value(body) >= x);
                assert(digits_value(body) > u32::MAX);
            }
            return None;
        }
        i += 1;
    }
    assert(v@.subrange(start as int, to as int) =~= body);
    Some(acc as u32)
}

} // verus!
