//! Natural numbers of any size, held as decimal digits with the least
//! significant digit first: sums, differences, products and shifts by powers
//! of ten, all exact.
use vstd::prelude::*;

verus! {

/// `10^e`.
pub open spec fn pow10(e: nat) -> int
    decreases e,
{
    if e == 0 {
        1
    } else {
        10 * pow10((e - 1) as nat)
    }
}

/// The number that decimal digits stand for, least significant first. A
/// "digit" above 9 counts at its face value.
pub open spec fn digits_value(ds: Seq<u8>) -> nat
    decreases ds.len(),
{
    if ds.len() == 0 {
        0
    } else {
        ds[0] as nat + 10 * digits_value(ds.drop_first())
    }
}

/// Every entry is a decimal digit.
pub open spec fn is_digits(ds: Seq<u8>) -> bool {
    forall|i: int| 0 <= i < ds.len() ==> #[trigger] ds[i] < 10
}

/// The `i`-th digit, or 0 past the end.
pub open spec fn digit_or_zero(ds: Seq<u8>, i: int) -> u8 {
    if 0 <= i < ds.len() {
        ds[i]
    } else {
        0
    }
}

/// The number that the lowest `n` digits stand for, zeros past the end.
pub open spec fn low_value(ds: Seq<u8>, n: nat) -> nat {
    digits_value(Seq::new(n, |i: int| digit_or_zero(ds, i)))
}

proof fn lemma_pow10_pos(e: nat)
    ensures
        pow10(e) >= 1,
    decreases e,
{
    if e > 0 {
        lemma_pow10_pos((e - 1) as nat);
    }
}

/// `10^(a + b) == 10^a * 10^b`.
pub proof fn lemma_pow10_add(a: nat, b: nat)
    ensures
        pow10(a + b) == pow10(a) * pow10(b),
    decreases b,
{
    if b > 0 {
        lemma_pow10_add(a, (b - 1) as nat);
        let p = pow10(a);
        let q = pow10((b - 1) as nat);
        assert(pow10(a + b) == 10 * pow10((a + b - 1) as nat));
        assert(10 * (p * q) == p * (10 * q)) by (nonlinear_arith);
    }
}

proof fn lemma_value_push(ds: Seq<u8>, d: u8)
    ensures
        digits_value(ds.push(d)) == digits_value(ds) + d * pow10(ds.len()),
    decreases ds.len(),
{
    if ds.len() == 0 {
        assert(ds.push(d).drop_first() =~= Seq::<u8>::empty());
        assert(ds.push(d)[0] == d);
        assert(pow10(0) == 1);
        assert(digits_value(ds.push(d)) == d + 10 * digits_value(Seq::<u8>::empty()));
        assert(digits_value(ds) == 0);
    } else {
        assert(ds.push(d).drop_first() =~= ds.drop_first().push(d));
        assert(ds.push(d)[0] == ds[0]);
        lemma_value_push(ds.drop_first(), d);
        let v = digits_value(ds.drop_first());
        let p = pow10((ds.len() - 1) as nat);
        assert(pow10(ds.len()) == 10 * p);
        assert(10 * (v + d * p) == 10 * v + d * (10 * p)) by (nonlinear_arith);
        assert(digits_value(ds.push(d)) == ds[0] + 10 * (v + d * p));
        assert(digits_value(ds) == ds[0] + 10 * v);
    }
}

proof fn lemma_value_bound(ds: Seq<u8>)
    requires
        is_digits(ds),
    ensures
        digits_value(ds) < pow10(ds.len()),
    decreases ds.len(),
{
    if ds.len() > 0 {
        assert(is_digits(ds.drop_first())) by {
            assert forall|i: int| 0 <= i < ds.drop_first().len() implies #[trigger] ds.drop_first()[i]
                < 10 by {
                assert(ds.drop_first()[i] == ds[i + 1]);
            }
        }
        lemma_value_bound(ds.drop_first());
        assert(ds[0] < 10);
    }
}

proof fn lemma_take_step(ds: Seq<u8>, i: int)
    requires
        0 <= i < ds.len(),
    ensures
        digits_value(ds.take(i + 1)) == digits_value(ds.take(i)) + ds[i] * pow10(i as nat),
{
    assert(ds.take(i + 1) =~= ds.take(i).push(ds[i]));
    lemma_value_push(ds.take(i), ds[i]);
}

/// The lowest `i + 1` digits stand for the lowest `i` plus digit `i` times `10^i`.
pub proof fn lemma_take_value_step(ds: Seq<u8>, i: int)
    requires
        0 <= i < ds.len(),
    ensures
        digits_value(ds.take(i + 1)) == digits_value(ds.take(i)) + ds[i] * pow10(i as nat),
{
    lemma_take_step(ds, i);
}

/// A number is at least any of its digits times that digit's power of ten.
pub proof fn lemma_value_at_least_digit(ds: Seq<u8>, i: int)
    requires
        0 <= i < ds.len(),
    ensures
        digits_value(ds) >= ds[i] * pow10(i as nat),
        ds[i] > 0 ==> digits_value(ds) > 0,
    decreases ds.len(),
{
    lemma_pow10_pos(i as nat);
    assert(ds[i] > 0 ==> ds[i] * pow10(i as nat) > 0) by (nonlinear_arith)
        requires
            pow10(i as nat) >= 1,
    ;
    if i == 0 {
        assert(pow10(0) == 1);
    } else {
        lemma_value_at_least_digit(ds.drop_first(), i - 1);
        assert(ds.drop_first()[i - 1] == ds[i]);
        let p = pow10((i - 1) as nat);
        assert(pow10(i as nat) == 10 * p);
        assert(10 * digits_value(ds.drop_first()) >= ds[i] * (10 * p)) by (nonlinear_arith)
            requires
                digits_value(ds.drop_first()) >= ds[i] * p,
        ;
    }
}

proof fn lemma_low_step(ds: Seq<u8>, n: nat)
    ensures
        low_value(ds, n + 1) == low_value(ds, n) + digit_or_zero(ds, n as int) * pow10(n),
{
    let s = Seq::new(n, |i: int| digit_or_zero(ds, i));
    assert(Seq::new(n + 1, |i: int| digit_or_zero(ds, i)) =~= s.push(digit_or_zero(ds, n as int)));
    lemma_value_push(s, digit_or_zero(ds, n as int));
}

proof fn lemma_low_full(ds: Seq<u8>, n: nat)
    requires
        n >= ds.len(),
    ensures
        low_value(ds, n) == digits_value(ds),
    decreases n,
{
    if n == ds.len() {
        assert(Seq::new(n, |i: int| digit_or_zero(ds, i)) =~= ds);
    } else {
        lemma_low_full(ds, (n - 1) as nat);
        lemma_low_step(ds, (n - 1) as nat);
    }
}

/// The step of a digit loop: writing `t % 10` at position `i` and carrying
/// `t / 10` accounts for `t` units of `10^i`.
proof fn lemma_carry_step(r: Seq<u8>, t: int)
    requires
        t >= 0,
    ensures
        digits_value(r.push((t % 10) as u8)) + (t / 10) * pow10(r.len() + 1) == digits_value(r) + t
            * pow10(r.len()),
{
    lemma_value_push(r, (t % 10) as u8);
    let p = pow10(r.len());
    assert(pow10(r.len() + 1) == 10 * p);
    assert((t % 10) * p + (t / 10) * (10 * p) == t * p) by (nonlinear_arith)
        requires
            t == 10 * (t / 10) + t % 10,
    ;
}

/// Pushes the digits of `carry` onto `r`.
fn flush_carry(r: &mut Vec<u8>, carry: u32)
    requires
        is_digits(old(r)@),
    ensures
        is_digits(final(r)@),
        digits_value(final(r)@) == digits_value(old(r)@) + carry * pow10(old(r)@.len()),
{
    let mut c = carry;
    while c > 0
        invariant
            is_digits(r@),
            digits_value(r@) + c * pow10(r@.len()) == digits_value(old(r)@) + carry * pow10(
                old(r)@.len(),
            ),
        decreases c,
    {
        proof {
            lemma_carry_step(r@, c as int);
        }
        r.push((c % 10) as u8);
        c = c / 10;
    }
}

/// The sum of two digit strings, as proper decimal digits.
pub fn add_digits(a: &Vec<u8>, b: &Vec<u8>) -> (r: Vec<u8>)
    ensures
        is_digits(r@),
        digits_value(r@) == digits_value(a@) + digits_value(b@),
{
    let n = if a.len() >= b.len() {
        a.len()
    } else {
        b.len()
    };
    let mut r: Vec<u8> = Vec::new();
    let mut carry: u32 = 0;
    let mut i: usize = 0;
    while i < n
        invariant
            i <= n,
            n >= a.len(),
            n >= b.len(),
            r@.len() == i,
            is_digits(r@),
            carry < 100,
            digits_value(r@) + carry * pow10(i as nat) == low_value(a@, i as nat) + low_value(
                b@,
                i as nat,
            ),
        decreases n - i,
    {
        let da: u32 = if i < a.len() {
            a[i] as u32
        } else {
            0
        };
        let db: u32 = if i < b.len() {
            b[i] as u32
        } else {
            0
        };
        let t: u32 = da + db + carry;
        proof {
            lemma_low_step(a@, i as nat);
            lemma_low_step(b@, i as nat);
            lemma_carry_step(r@, t as int);
            let p = pow10(i as nat);
            assert(t * p == carry * p + da * p + db * p) by (nonlinear_arith)
                requires
                    t == da + db + carry,
            ;
        }
        r.push((t % 10) as u8);
        carry = t / 10;
        i = i + 1;
    }
    proof {
        lemma_low_full(a@, n as nat);
        lemma_low_full(b@, n as nat);
    }
    flush_carry(&mut r, carry);
    r
}

/// The difference of two digit strings of proper digits, with a borrow where
/// `b` is the larger: `r - borrow * 10^len(r) == a - b`.
fn sub_digits(a: &Vec<u8>, b: &Vec<u8>) -> (r: (Vec<u8>, bool))
    requires
        is_digits(a@),
        is_digits(b@),
    ensures
        is_digits(r.0@),
        digits_value(r.0@) - (if r.1 {
            pow10(r.0@.len())
        } else {
            0
        }) == digits_value(a@) - digits_value(b@),
{
    let n = if a.len() >= b.len() {
        a.len()
    } else {
        b.len()
    };
    let mut r: Vec<u8> = Vec::new();
    let mut borrow: bool = false;
    let mut i: usize = 0;
    while i < n
        invariant
            i <= n,
            n >= a.len(),
            n >= b.len(),
            is_digits(a@),
            is_digits(b@),
            r@.len() == i,
            is_digits(r@),
            digits_value(r@) - (if borrow {
                pow10(i as nat)
            } else {
                0
            }) == low_value(a@, i as nat) - low_value(b@, i as nat),
        decreases n - i,
    {
        let da: i32 = if i < a.len() {
            a[i] as i32
        } else {
            0
        };
        let db: i32 = if i < b.len() {
            b[i] as i32
        } else {
            0
        };
        let br: i32 = if borrow {
            1
        } else {
            0
        };
        let mut t: i32 = da - db - br;
        let next = t < 0;
        if next {
            t = t + 10;
        }
        proof {
            lemma_low_step(a@, i as nat);
            lemma_low_step(b@, i as nat);
            lemma_value_push(r@, t as u8);
            let p = pow10(i as nat);
            let nb: int = if next {
                1
            } else {
                0
            };
            assert(pow10(i as nat + 1) == 10 * p);
            assert(t * p - nb * (10 * p) == da * p - db * p - br * p) by (nonlinear_arith)
                requires
                    t - 10 * nb == da - db - br,
            ;
        }
        r.push(t as u8);
        borrow = next;
        i = i + 1;
    }
    proof {
        lemma_low_full(a@, n as nat);
        lemma_low_full(b@, n as nat);
    }
    (r, borrow)
}

/// `|a - b|` for digit strings of proper digits.
pub fn abs_diff_digits(a: &Vec<u8>, b: &Vec<u8>) -> (r: Vec<u8>)
    requires
        is_digits(a@),
        is_digits(b@),
    ensures
        is_digits(r@),
        digits_value(r@) == if digits_value(a@) >= digits_value(b@) {
            digits_value(a@) - digits_value(b@)
        } else {
            digits_value(b@) - digits_value(a@)
        },
{
    let (r, borrow) = sub_digits(a, b);
    proof {
        lemma_value_bound(r@);
    }
    if !borrow {
        r
    } else {
        let (r2, borrow2) = sub_digits(b, a);
        proof {
            lemma_value_bound(r2@);
        }
        r2
    }
}

/// A digit string times one digit-sized factor.
fn mul_small(a: &Vec<u8>, d: u8) -> (r: Vec<u8>)
    ensures
        is_digits(r@),
        digits_value(r@) == digits_value(a@) * d,
{
    let mut r: Vec<u8> = Vec::new();
    let mut carry: u32 = 0;
    let mut i: usize = 0;
    assert(a@.take(0) =~= Seq::<u8>::empty());
    assert(0 * (d as int) == 0);
    while i < a.len()
        invariant
            i <= a.len(),
            r@.len() == i,
            is_digits(r@),
            carry < 7300,
            digits_value(r@) + carry * pow10(i as nat) == digits_value(a@.take(i as int)) * d,
        decreases a.len() - i,
    {
        let x: u32 = a[i] as u32;
        assert(x * (d as u32) <= 255 * 255) by (nonlinear_arith)
            requires
                x <= 255,
                d <= 255,
        ;
        let t: u32 = x * (d as u32) + carry;
        proof {
            lemma_take_step(a@, i as int);
            lemma_carry_step(r@, t as int);
            let p = pow10(i as nat);
            let v = digits_value(a@.take(i as int));
            assert((v + x * p) * d == v * d + t * p - carry * p) by (nonlinear_arith)
                requires
                    t == x * d + carry,
            ;
        }
        r.push((t % 10) as u8);
        carry = t / 10;
        i = i + 1;
    }
    assert(a@.take(a.len() as int) =~= a@);
    flush_carry(&mut r, carry);
    r
}

/// A digit string of proper digits times `10^k`: `k` zeros below it.
pub fn shift_digits(a: &Vec<u8>, k: u64) -> (r: Vec<u8>)
    requires
        is_digits(a@),
    ensures
        is_digits(r@),
        digits_value(r@) == digits_value(a@) * pow10(k as nat),
{
    let mut r: Vec<u8> = Vec::new();
    let mut j: u64 = 0;
    while j < k
        invariant
            j <= k,
            r@.len() == j,
            is_digits(r@),
            digits_value(r@) == 0,
        decreases k - j,
    {
        proof {
            lemma_value_push(r@, 0);
        }
        r.push(0);
        j = j + 1;
    }
    let mut i: usize = 0;
    assert(a@.take(0) =~= Seq::<u8>::empty());
    assert(0 * pow10(k as nat) == 0) by (nonlinear_arith);
    while i < a.len()
        invariant
            i <= a.len(),
            is_digits(a@),
            r@.len() == k + i,
            is_digits(r@),
            digits_value(r@) == digits_value(a@.take(i as int)) * pow10(k as nat),
        decreases a.len() - i,
    {
        proof {
            lemma_take_step(a@, i as int);
            lemma_value_push(r@, a@[i as int]);
            lemma_pow10_add(k as nat, i as nat);
            let v = digits_value(a@.take(i as int));
            let x = a@[i as int];
            assert((v + x * pow10(i as nat)) * pow10(k as nat) == v * pow10(k as nat) + x * (pow10(
                k as nat,
            ) * pow10(i as nat))) by (nonlinear_arith);
        }
        r.push(a[i]);
        i = i + 1;
    }
    assert(a@.take(a.len() as int) =~= a@);
    r
}

/// The product of two digit strings.
pub fn mul_digits(a: &Vec<u8>, b: &Vec<u8>) -> (r: Vec<u8>)
    ensures
        is_digits(r@),
        digits_value(r@) == digits_value(a@) * digits_value(b@),
{
    let mut r: Vec<u8> = Vec::new();
    let mut i: usize = 0;
    assert(a@.take(0) =~= Seq::<u8>::empty());
    assert(0 * digits_value(b@) == 0) by (nonlinear_arith);
    while i < a.len()
        invariant
            i <= a.len(),
            is_digits(r@),
            digits_value(r@) == digits_value(a@.take(i as int)) * digits_value(b@),
        decreases a.len() - i,
    {
        let part = mul_small(b, a[i]);
        let shifted = shift_digits(&part, i as u64);
        proof {
            lemma_take_step(a@, i as int);
            let v = digits_value(a@.take(i as int));
            let x = a@[i as int];
            let w = digits_value(b@);
            let p = pow10(i as nat);
            assert((v + x * p) * w == v * w + w * x * p) by (nonlinear_arith);
        }
        r = add_digits(&r, &shifted);
        i = i + 1;
    }
    assert(a@.take(a.len() as int) =~= a@);
    r
}

/// The signed number of a sign flag and digits.
pub open spec fn signed_value(negative: bool, ds: Seq<u8>) -> int {
    if negative {
        -(digits_value(ds) as int)
    } else {
        digits_value(ds) as int
    }
}

/// The sum of two signed numbers of proper digits.
pub fn signed_add(an: bool, a: &Vec<u8>, bn: bool, b: &Vec<u8>) -> (r: (bool, Vec<u8>))
    requires
        is_digits(a@),
        is_digits(b@),
    ensures
        is_digits(r.1@),
        signed_value(r.0, r.1@) == signed_value(an, a@) + signed_value(bn, b@),
{
    if an == bn {
        (an, add_digits(a, b))
    } else {
        let (d, borrow) = sub_digits(a, b);
        proof {
            lemma_value_bound(d@);
        }
        if !borrow {
            (an, d)
        } else {
            let (d2, borrow2) = sub_digits(b, a);
            proof {
                lemma_value_bound(d2@);
            }
            (bn, d2)
        }
    }
}

/// A copy of a digit string.
pub fn copy_digits(a: &Vec<u8>) -> (r: Vec<u8>)
    ensures
        r@ == a@,
{
    let r = a.clone();
    assert(r@ =~= a@);
    r
}

/// The decimal digits of `x`.
pub fn digits_of_u64(x: u64) -> (r: Vec<u8>)
    ensures
        is_digits(r@),
        digits_value(r@) == x,
{
    let mut r: Vec<u8> = Vec::new();
    let mut c = x;
    while c > 0
        invariant
            is_digits(r@),
            digits_value(r@) + c * pow10(r@.len()) == x,
        decreases c,
    {
        proof {
            lemma_carry_step(r@, c as int);
        }
        r.push((c % 10) as u8);
        c = c / 10;
    }
    r
}

} // verus!
