//! Natural numbers of any size, as little-endian vectors of 32-bit limbs:
//! just what exact comparisons of decimal literals with binary fractions
//! need (multiplying by a small factor, adding, comparing).
use vstd::prelude::*;

verus! {

/// `2^32` to the power `i`.
pub open spec fn pow_base(i: nat) -> nat
    decreases i,
{
    if i == 0 {
        1
    } else {
        0x1_0000_0000 * pow_base((i - 1) as nat)
    }
}

/// The number the limbs `s` denote, least significant first.
pub open spec fn limbs_value(s: Seq<u32>) -> nat
    decreases s.len(),
{
    if s.len() == 0 {
        0
    } else {
        limbs_value(s.drop_last()) + (s.last() as nat) * pow_base((s.len() - 1) as nat)
    }
}

/// How two numbers compare.
#[derive(Debug, Clone, Copy, PartialEq, Eq, Structural)]
pub enum Order {
    Less,
    Same,
    Greater,
}

pub open spec fn order_of(a: nat, b: nat) -> Order {
    if a < b {
        Order::Less
    } else if a == b {
        Order::Same
    } else {
        Order::Greater
    }
}

pub proof fn lemma_pow_base_positive(i: nat)
    ensures
        pow_base(i) >= 1,
    decreases i,
{
    if i > 0 {
        lemma_pow_base_positive((i - 1) as nat);
    }
}

/// A number of `n` limbs is below `2^(32 n)`.
pub proof fn lemma_limbs_value_bound(s: Seq<u32>)
    ensures
        limbs_value(s) < pow_base(s.len()),
    decreases s.len(),
{
    if s.len() > 0 {
        let n = (s.len() - 1) as nat;
        lemma_limbs_value_bound(s.drop_last());
        lemma_pow_base_positive(n);
        let p = pow_base(n);
        let l = s.last() as int;
        let v = limbs_value(s.drop_last()) as int;
        assert(v + l * p < 0x1_0000_0000 * p) by (nonlinear_arith)
            requires
                v < p,
                0 <= l <= 0xffff_ffff,
                p >= 1,
        ;
    }
}

proof fn lemma_push_value(s: Seq<u32>, d: u32)
    ensures
        limbs_value(s.push(d)) == limbs_value(s) + d * pow_base(s.len()),
{
    assert(s.push(d).drop_last() =~= s);
}

proof fn lemma_prefix_value(s: Seq<u32>, i: int)
    requires
        0 <= i < s.len(),
    ensures
        limbs_value(s.subrange(0, i + 1)) == limbs_value(s.subrange(0, i)) + s[i] * pow_base(
            i as nat,
        ),
{
    assert(s.subrange(0, i + 1).drop_last() =~= s.subrange(0, i));
}

/// `value(v) * m + a`.
pub fn mul_add(v: &Vec<u32>, m: u64, a: u64) -> (r: Vec<u32>)
    ensures
        limbs_value(r@) == limbs_value(v@) * m + a,
{
    let mut out: Vec<u32> = Vec::new();
    let mut carry: u128 = a as u128;
    let mut i: usize = 0;
    assert(v@.subrange(0, 0) =~= Seq::<u32>::empty());
    assert(limbs_value(v@.subrange(0, 0)) == 0);
    assert(limbs_value(out@) == 0);
    assert(pow_base(0) == 1);
    while i < v.len()
        invariant
            i <= v.len(),
            out.len() == i,
            carry < 0x2_0000_0000_0000_0000,
            limbs_value(out@) + carry * pow_base(i as nat) == limbs_value(v@.subrange(0, i as int))
                * m + a,
        decreases v.len() - i,
    {
        let limb = v[i];
        assert((limb as u128) * (m as u128) <= 0xffff_ffff * 0xffff_ffff_ffff_ffff) by (
        nonlinear_arith)
            requires
                limb <= 0xffff_ffff,
                m <= 0xffff_ffff_ffff_ffff,
        ;
        let t: u128 = (limb as u128) * (m as u128) + carry;
        let d: u32 = (t % 0x1_0000_0000) as u32;
        let c: u128 = t / 0x1_0000_0000;
        proof {
            let p = pow_base(i as nat);
            let x = limbs_value(v@.subrange(0, i as int));
            lemma_prefix_value(v@, i as int);
            lemma_push_value(out@, d);
            assert(t == d + c * 0x1_0000_0000);
            assert(pow_base((i + 1) as nat) == 0x1_0000_0000 * p);
            assert(limbs_value(out@) + d * p + c * (0x1_0000_0000 * p) == limbs_value(out@) + carry
                * p + limb * m * p) by (nonlinear_arith)
                requires
                    t == d + c * 0x1_0000_0000,
                    t == limb * m + carry,
            ;
            assert((x + limb * p) * m == x * m + limb * m * p) by (nonlinear_arith);
        }
        out.push(d);
        carry = c;
        i += 1;
    }
    assert(v@.subrange(0, v.len() as int) =~= v@);
    while carry > 0
        invariant
            limbs_value(out@) + carry * pow_base(out.len() as nat) == limbs_value(v@) * m + a,
        decreases carry,
    {
        let d: u32 = (carry % 0x1_0000_0000) as u32;
        let c: u128 = carry / 0x1_0000_0000;
        proof {
            let p = pow_base(out.len() as nat);
            lemma_push_value(out@, d);
            assert(pow_base((out.len() + 1) as nat) == 0x1_0000_0000 * p);
            assert(d * p + c * (0x1_0000_0000 * p) == carry * p) by (nonlinear_arith)
                requires
                    carry == d + c * 0x1_0000_0000,
            ;
        }
        out.push(d);
        carry = c;
    }
    out
}

/// `v` followed by zero limbs up to `n` limbs: the same number.
fn padded(v: &Vec<u32>, n: usize) -> (r: Vec<u32>)
    ensures
        limbs_value(r@) == limbs_value(v@),
        r.len() == if n > v.len() {
            n
        } else {
            v.len()
        },
{
    let mut r = v.clone();
    assert(r@ == v@);
    while r.len() < n
        invariant
            limbs_value(r@) == limbs_value(v@),
            r.len() >= v.len(),
            r.len() <= if n > v.len() {
                n
            } else {
                v.len()
            },
        decreases n - r.len(),
    {
        proof {
            lemma_push_value(r@, 0);
        }
        r.push(0);
    }
    r
}

/// `value(a) + value(b)`.
pub fn sum(a: &Vec<u32>, b: &Vec<u32>) -> (r: Vec<u32>)
    ensures
        limbs_value(r@) == limbs_value(a@) + limbs_value(b@),
{
    let n = if a.len() > b.len() {
        a.len()
    } else {
        b.len()
    };
    let x = padded(a, n);
    let y = padded(b, n);
    let mut out: Vec<u32> = Vec::new();
    let mut carry: u64 = 0;
    let mut i: usize = 0;
    assert(x@.subrange(0, 0) =~= Seq::<u32>::empty());
    assert(y@.subrange(0, 0) =~= Seq::<u32>::empty());
    while i < n
        invariant
            i <= n,
            x.len() == n,
            y.len() == n,
            out.len() == i,
            carry <= 1,
            limbs_value(out@) + carry * pow_base(i as nat) == limbs_value(x@.subrange(0, i as int))
                + limbs_value(y@.subrange(0, i as int)),
        decreases n - i,
    {
        let t: u64 = (x[i] as u64) + (y[i] as u64) + carry;
        let d: u32 = (t % 0x1_0000_0000) as u32;
        let c: u64 = t / 0x1_0000_0000;
        proof {
            let p = pow_base(i as nat);
            lemma_prefix_value(x@, i as int);
            lemma_prefix_value(y@, i as int);
            lemma_push_value(out@, d);
            assert(pow_base((i + 1) as nat) == 0x1_0000_0000 * p);
            assert(d * p + c * (0x1_0000_0000 * p) == carry * p + x[i as int] * p + y[i as int] * p)
                by (nonlinear_arith)
                requires
                    t == d + c * 0x1_0000_0000,
                    t == x[i as int] + y[i as int] + carry,
            ;
        }
        out.push(d);
        carry = c;
        i += 1;
    }
    assert(x@.subrange(0, n as int) =~= x@);
    assert(y@.subrange(0, n as int) =~= y@);
    proof {
        lemma_push_value(out@, carry as u32);
    }
    out.push(carry as u32);
    out
}

/// Limbs `i..` of `a` and `b` agree, so the numbers differ as their first
/// `i` limbs do.
proof fn lemma_top_agrees(a: Seq<u32>, b: Seq<u32>, i: int)
    requires
        a.len() == b.len(),
        0 <= i <= a.len(),
        forall|j: int| i <= j < a.len() ==> a[j] == b[j],
    ensures
        limbs_value(a) - limbs_value(b) == limbs_value(a.subrange(0, i)) - limbs_value(
            b.subrange(0, i),
        ),
    decreases a.len() - i,
{
    if i < a.len() {
        lemma_top_agrees(a, b, i + 1);
        lemma_prefix_value(a, i);
        lemma_prefix_value(b, i);
    } else {
        assert(a.subrange(0, i) =~= a);
        assert(b.subrange(0, i) =~= b);
    }
}

/// A smaller top limb makes a smaller number, whatever lies below it.
proof fn lemma_top_limb_decides(a: Seq<u32>, b: Seq<u32>, i: int)
    requires
        0 <= i < a.len(),
        i < b.len(),
        a[i] < b[i],
    ensures
        limbs_value(a.subrange(0, i + 1)) < limbs_value(b.subrange(0, i + 1)),
{
    lemma_prefix_value(a, i);
    lemma_prefix_value(b, i);
    lemma_limbs_value_bound(a.subrange(0, i));
    assert(a.subrange(0, i).len() == i);
    let p = pow_base(i as nat);
    let va = limbs_value(a.subrange(0, i)) as int;
    let vb = limbs_value(b.subrange(0, i)) as int;
    let x = a[i] as int;
    let y = b[i] as int;
    assert(va + x * p < vb + y * p) by (nonlinear_arith)
        requires
            va < p,
            vb >= 0,
            x < y,
            x >= 0,
    ;
}

/// How `value(a)` compares with `value(b)`.
pub fn compare(a: &Vec<u32>, b: &Vec<u32>) -> (r: Order)
    ensures
        r == order_of(limbs_value(a@), limbs_value(b@)),
{
    let n = if a.len() > b.len() {
        a.len()
    } else {
        b.len()
    };
    let x = padded(a, n);
    let y = padded(b, n);
    let mut i = n;
    while i > 0
        invariant
            i <= n,
            x.len() == n,
            y.len() == n,
            limbs_value(x@) == limbs_value(a@),
            limbs_value(y@) == limbs_value(b@),
            forall|j: int| i <= j < n ==> x@[j] == y@[j],
        decreases i,
    {
        if x[i - 1] != y[i - 1] {
            proof {
                lemma_top_agrees(x@, y@, i as int);
            }
            if x[i - 1] < y[i - 1] {
                proof {
                    lemma_top_limb_decides(x@, y@, i - 1);
                    assert((i - 1) + 1 == i);
                    assert(limbs_value(x@.subrange(0, i as int)) < limbs_value(y@.subrange(0, i as int)));
                    assert(limbs_value(x@) < limbs_value(y@));
                }
                return Order::Less;
            } else {
                proof {
                    lemma_top_limb_decides(y@, x@, i - 1);
                    assert((i - 1) + 1 == i);
                    assert(limbs_value(y@.subrange(0, i as int)) < limbs_value(x@.subrange(0, i as int)));
                    assert(limbs_value(y@) < limbs_value(x@));
                }
                return Order::Greater;
            }
        }
        i -= 1;
    }
    proof {
        lemma_top_agrees(x@, y@, 0);
    }
    Order::Same
}

/// The limbs of a `u64`.
pub fn from_u64(c: u64) -> (r: Vec<u32>)
    ensures
        limbs_value(r@) == c,
{
    let empty: Vec<u32> = Vec::new();
    assert(limbs_value(empty@) == 0);
    mul_add(&empty, 0, c)
}

/// `2` to the power `k`.
pub open spec fn pow2(k: nat) -> nat
    decreases k,
{
    if k == 0 {
        1
    } else {
        2 * pow2((k - 1) as nat)
    }
}

pub proof fn lemma_pow2_add(a: nat, b: nat)
    ensures
        pow2(a + b) == pow2(a) * pow2(b),
    decreases b,
{
    if b > 0 {
        let b1 = (b - 1) as nat;
        lemma_pow2_add(a, b1);
        assert((a + b1) + 1 == a + b);
        assert(pow2(a + b) == 2 * pow2(a + b1));
        assert(pow2(b) == 2 * pow2(b1));
        let x = pow2(a);
        let y = pow2(b1);
        assert(2 * (x * y) == x * (2 * y)) by (nonlinear_arith);
        assert(pow2(a + b) == x * pow2(b));
    } else {
        assert(a + b == a);
        assert(pow2(b) == 1);
        assert(pow2(a) * 1 == pow2(a));
    }
}

/// `value(v) * 2^q`.
pub fn times_pow2(v: &Vec<u32>, q: usize) -> (r: Vec<u32>)
    ensures
        limbs_value(r@) == limbs_value(v@) * pow2(q as nat),
{
    let mut r = v.clone();
    assert(r@ == v@);
    let mut i: usize = 0;
    assert(pow2(0) == 1);
    assert(limbs_value(v@) * 1 == limbs_value(v@));
    while i < q
        invariant
            i <= q,
            limbs_value(r@) == limbs_value(v@) * pow2(i as nat),
        decreases q - i,
    {
        r = mul_add(&r, 2, 0);
        proof {
            let x = limbs_value(v@);
            let p = pow2(i as nat);
            assert(pow2((i + 1) as nat) == 2 * p);
            assert(x * p * 2 == x * (2 * p)) by (nonlinear_arith);
        }
        i += 1;
    }
    r
}

} // verus!
