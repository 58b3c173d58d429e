//! Arbitrary-precision signed integers, held as a sign and a big-endian
//! magnitude without leading zeros. The arithmetic itself is delegated to
//! num-bigint behind trusted wrappers whose contracts are exact over the
//! mathematical value of the representation.

use vstd::prelude::*;

verus! {

/// Big-endian base-256 value of a byte sequence.
pub open spec fn be_val(s: Seq<u8>) -> nat
    decreases s.len(),
{
    if s.len() == 0 {
        0
    } else {
        be_val(s.drop_last()) * 256 + s.last() as nat
    }
}

/// Little-endian base-256 value of a byte sequence.
pub open spec fn le_val(s: Seq<u8>) -> nat
    decreases s.len(),
{
    if s.len() == 0 {
        0
    } else {
        s.first() as nat + 256 * le_val(s.drop_first())
    }
}

/// Value of a sign-and-magnitude pair; the magnitude is big-endian.
pub open spec fn signed_be(neg: bool, s: Seq<u8>) -> int {
    if neg {
        -(be_val(s) as int)
    } else {
        be_val(s) as int
    }
}

pub open spec fn pow256(n: nat) -> nat
    decreases n,
{
    if n == 0 {
        1
    } else {
        256 * pow256((n - 1) as nat)
    }
}

/// Floored division: the quotient is rounded toward negative infinity,
/// so the remainder carries the sign of the divisor.
pub open spec fn fdiv(a: int, b: int) -> int {
    if a % b == 0 {
        a / b
    } else if b < 0 {
        a / b - 1
    } else {
        a / b
    }
}

/// Floored modulus: `a - b * fdiv(a, b)`.
pub open spec fn fmod(a: int, b: int) -> int {
    a - b * fdiv(a, b)
}

/// Truncated division: the quotient is rounded toward zero.
pub open spec fn tquot(a: int, b: int) -> int {
    if (a >= 0) == (b > 0) {
        abs_int(a) / abs_int(b)
    } else {
        -(abs_int(a) / abs_int(b))
    }
}

/// Truncated remainder: `a - b * tquot(a, b)`; it carries the sign of the
/// dividend.
pub open spec fn trem(a: int, b: int) -> int {
    a - b * tquot(a, b)
}

pub open spec fn abs_int(a: int) -> int {
    if a >= 0 {
        a
    } else {
        -a
    }
}

/// For a positive divisor the floored modulus is the Euclidean remainder.
pub proof fn lemma_fmod_pos(a: int, b: int)
    requires
        b > 0,
    ensures
        fmod(a, b) == a % b,
        0 <= fmod(a, b) < b,
{
    vstd::arithmetic::div_mod::lemma_fundamental_div_mod(a, b);
}

/// A signed arbitrary-precision integer: big-endian magnitude with no
/// leading zero byte; zero is the empty magnitude with a positive sign.
#[derive(Debug)]
pub struct BigNum {
    pub neg: bool,
    pub mag: Vec<u8>,
}

impl BigNum {
    pub open spec fn wf(self) -> bool {
        &&& self.mag@.len() > 0 ==> self.mag@[0] != 0
        &&& self.neg ==> self.mag@.len() > 0
    }

    pub open spec fn val(self) -> int {
        signed_be(self.neg, self.mag@)
    }
}

pub proof fn lemma_be_val_bound(s: Seq<u8>)
    ensures
        be_val(s) < pow256(s.len()),
    decreases s.len(),
{
    if s.len() > 0 {
        lemma_be_val_bound(s.drop_last());
    }
}

pub proof fn lemma_be_val_lower(s: Seq<u8>)
    requires
        s.len() > 0,
        s[0] != 0,
    ensures
        be_val(s) >= pow256((s.len() - 1) as nat),
    decreases s.len(),
{
    if s.len() > 1 {
        assert(s.drop_last()[0] == s[0]);
        lemma_be_val_lower(s.drop_last());
    }
}

pub proof fn lemma_pow256_mono(m: nat, n: nat)
    requires
        m <= n,
    ensures
        pow256(m) <= pow256(n),
    decreases n,
{
    if m < n {
        lemma_pow256_mono(m, (n - 1) as nat);
    }
}

/// A leading zero byte does not change the value.
pub proof fn lemma_be_val_strip(s: Seq<u8>)
    requires
        s.len() > 0,
        s[0] == 0,
    ensures
        be_val(s) == be_val(s.subrange(1, s.len() as int)),
    decreases s.len(),
{
    if s.len() == 1 {
        reveal_with_fuel(be_val, 3);
        assert(s.drop_last().len() == 0);
        assert(s.subrange(1, 1).len() == 0);
    } else {
        let t = s.drop_last();
        let u = s.subrange(1, s.len() as int);
        assert(t[0] == 0);
        lemma_be_val_strip(t);
        assert(be_val(s) == be_val(t) * 256 + s.last() as nat);
        assert(u.len() > 0);
        assert(be_val(u) == be_val(u.drop_last()) * 256 + u.last() as nat);
        assert(u.drop_last() =~= t.subrange(1, t.len() as int));
        assert(u.last() == s.last());
    }
}

/// Magnitudes without leading zeros are uniquely determined by their value.
pub proof fn lemma_be_val_inj(s1: Seq<u8>, s2: Seq<u8>)
    requires
        s1.len() > 0 ==> s1[0] != 0,
        s2.len() > 0 ==> s2[0] != 0,
        be_val(s1) == be_val(s2),
    ensures
        s1 == s2,
    decreases s1.len(),
{
    if s1.len() == 0 && s2.len() == 0 {
        assert(s1 =~= s2);
    } else if s1.len() == 0 {
        lemma_be_val_lower(s2);
        lemma_pow256_mono(0, (s2.len() - 1) as nat);
    } else if s2.len() == 0 {
        lemma_be_val_lower(s1);
        lemma_pow256_mono(0, (s1.len() - 1) as nat);
    } else if s1.len() < s2.len() {
        lemma_be_val_bound(s1);
        lemma_be_val_lower(s2);
        lemma_pow256_mono(s1.len(), (s2.len() - 1) as nat);
    } else if s2.len() < s1.len() {
        lemma_be_val_bound(s2);
        lemma_be_val_lower(s1);
        lemma_pow256_mono(s2.len(), (s1.len() - 1) as nat);
    } else {
        let d1 = s1.drop_last();
        let d2 = s2.drop_last();
        assert(be_val(d1) * 256 + s1.last() as nat == be_val(d2) * 256 + s2.last() as nat);
        assert(be_val(d1) == be_val(d2) && s1.last() == s2.last()) by {
            let x = be_val(d1) as int;
            let y = be_val(d2) as int;
            let l1 = s1.last() as int;
            let l2 = s2.last() as int;
            assert(x * 256 + l1 == y * 256 + l2);
            assert((x - y) * 256 == l2 - l1) by (nonlinear_arith)
                requires
                    x * 256 + l1 == y * 256 + l2,
            ;
            assert(-256 < l2 - l1 < 256);
            assert(x == y) by (nonlinear_arith)
                requires
                    (x - y) * 256 == l2 - l1,
                    -256 < l2 - l1 < 256,
            ;
        }
        assert(d1.len() > 0 ==> d1[0] == s1[0]);
        assert(d2.len() > 0 ==> d2[0] == s2[0]);
        lemma_be_val_inj(d1, d2);
        assert forall|i: int| 0 <= i < s1.len() implies s1[i] == s2[i] by {
            if i < s1.len() - 1 {
                assert(s1[i] == d1[i]);
                assert(s2[i] == d2[i]);
            } else {
                assert(s1[i] == s1.last());
                assert(s2[i] == s2.last());
            }
        }
        assert(s1 =~= s2);
    }
}

pub proof fn lemma_le_val_push(s: Seq<u8>, d: u8)
    ensures
        le_val(s.push(d)) == le_val(s) + d as nat * pow256(s.len()),
    decreases s.len(),
{
    if s.len() == 0 {
        assert(s.push(d).drop_first() =~= Seq::<u8>::empty());
        assert(s.push(d).first() == d);
        assert(le_val(s.push(d)) == d as nat + 256 * le_val(Seq::<u8>::empty()));
        assert(le_val(s) == 0);
        assert(pow256(0) == 1);
        assert(d as nat * 1 == d as nat) by (nonlinear_arith);
    } else {
        assert(s.push(d).drop_first() =~= s.drop_first().push(d));
        assert(s.push(d).first() == s[0]);
        lemma_le_val_push(s.drop_first(), d);
        assert(le_val(s.push(d)) == s[0] as nat + 256 * (le_val(s.drop_first()) + d as nat
            * pow256((s.len() - 1) as nat)));
        assert(256 * (le_val(s.drop_first()) + d as nat * pow256((s.len() - 1) as nat)) == 256
            * le_val(s.drop_first()) + d as nat * (256 * pow256((s.len() - 1) as nat)))
            by (nonlinear_arith);
        assert(pow256(s.len()) == 256 * pow256((s.len() - 1) as nat));
        assert(le_val(s) == s.first() as nat + 256 * le_val(s.drop_first()));
    }
}

/// Reading a sequence little-endian is reading its reverse big-endian.
pub proof fn lemma_le_val_reverse(s: Seq<u8>)
    ensures
        le_val(s) == be_val(s.reverse()),
    decreases s.len(),
{
    if s.len() > 0 {
        lemma_le_val_reverse(s.drop_first());
        assert(s.reverse().drop_last() =~= s.drop_first().reverse());
        assert(s.reverse().last() == s[0]);
        assert(be_val(s.reverse()) == be_val(s.drop_first().reverse()) * 256 + s[0] as nat);
        assert(256 * le_val(s.drop_first()) == le_val(s.drop_first()) * 256);
    }
}

/// Well-formed numbers are uniquely determined by their value.
pub proof fn lemma_bignum_unique(a: BigNum, b: BigNum)
    requires
        a.wf(),
        b.wf(),
        a.val() == b.val(),
    ensures
        a.neg == b.neg,
        a.mag@ == b.mag@,
{
    if a.mag@.len() > 0 {
        lemma_be_val_lower(a.mag@);
        lemma_pow256_mono(0, (a.mag@.len() - 1) as nat);
    }
    if b.mag@.len() > 0 {
        lemma_be_val_lower(b.mag@);
        lemma_pow256_mono(0, (b.mag@.len() - 1) as nat);
    }
    lemma_be_val_inj(a.mag@, b.mag@);
}

/// Number of base-256 digits of a natural number; zero has none.
pub open spec fn byte_len(n: nat) -> nat
    decreases n,
{
    if n == 0 {
        0
    } else {
        1 + byte_len(n / 256)
    }
}

/// Ex-memory size of an integer: 64-bit words needed for its magnitude,
/// with zero costing one word.
pub open spec fn int_ex_mem(v: int) -> int {
    if v == 0 {
        1
    } else {
        (byte_len(abs_int(v) as nat) - 1) / 8 + 1
    }
}

/// The canonical big-endian digits of a natural number: no leading zeros,
/// and empty exactly for zero.
pub open spec fn be_bytes_of(n: nat) -> Seq<u8>
    decreases n,
{
    if n == 0 {
        Seq::empty()
    } else {
        be_bytes_of(n / 256).push((n % 256) as u8)
    }
}

/// `be_bytes_of` really denotes its argument.
pub proof fn lemma_be_bytes_of_val(n: nat)
    ensures
        be_val(be_bytes_of(n)) == n,
        be_bytes_of(n).len() > 0 ==> be_bytes_of(n)[0] != 0,
    decreases n,
{
    if n > 0 {
        lemma_be_bytes_of_val(n / 256);
        let s = be_bytes_of(n);
        assert(s.drop_last() =~= be_bytes_of(n / 256));
        assert(be_val(s) == be_val(be_bytes_of(n / 256)) * 256 + (n % 256));
        assert((n / 256) * 256 + n % 256 == n) by (nonlinear_arith);
        if be_bytes_of(n / 256).len() > 0 {
            assert(s[0] == be_bytes_of(n / 256)[0]);
        } else {
            assert(be_val(be_bytes_of(n / 256)) == 0);
            assert(n % 256 != 0);
            assert(s[0] == s.last());
        }
    }
}

/// The canonical magnitude of a well-formed number is `be_bytes_of` of its
/// absolute value.
pub proof fn lemma_mag_is_be_bytes(b: BigNum)
    requires
        b.wf(),
    ensures
        b.mag@ == be_bytes_of(abs_int(b.val()) as nat),
{
    lemma_be_bytes_of_val(abs_int(b.val()) as nat);
    assert(be_val(b.mag@) == abs_int(b.val()) as nat);
    lemma_be_val_inj(b.mag@, be_bytes_of(abs_int(b.val()) as nat));
}

/// Trailing zero bytes do not change a little-endian value.
pub proof fn lemma_le_val_append_zeros(s: Seq<u8>, k: nat)
    ensures
        le_val(s + Seq::new(k, |i: int| 0u8)) == le_val(s),
    decreases k,
{
    if k == 0 {
        assert(s + Seq::new(0, |i: int| 0u8) =~= s);
    } else {
        lemma_le_val_append_zeros(s, (k - 1) as nat);
        lemma_le_val_push(s + Seq::new((k - 1) as nat, |i: int| 0u8), 0);
        assert(s + Seq::new(k, |i: int| 0u8) =~= (s + Seq::new((k - 1) as nat, |i: int| 0u8)).push(
            0,
        ));
    }
}

/// Converting a non-negative integer to its big-endian bytes, left-padded
/// with any number of zero bytes, and reading the bytes back big-endian
/// returns the integer.
pub proof fn lemma_int_bytes_round_trip_be(v: nat, pad: nat)
    ensures
        be_val(Seq::new(pad, |i: int| 0u8) + be_bytes_of(v)) == v,
    decreases pad,
{
    lemma_be_bytes_of_val(v);
    if pad == 0 {
        assert(Seq::new(0, |i: int| 0u8) + be_bytes_of(v) =~= be_bytes_of(v));
    } else {
        lemma_int_bytes_round_trip_be(v, (pad - 1) as nat);
        let s = Seq::new(pad, |i: int| 0u8) + be_bytes_of(v);
        assert(s.len() > 0 && s[0] == 0);
        lemma_be_val_strip(s);
        assert(s.subrange(1, s.len() as int) =~= Seq::new((pad - 1) as nat, |i: int| 0u8)
            + be_bytes_of(v));
    }
}

/// The little-endian form: the reversed bytes, right-padded with zeros,
/// read back little-endian as the integer.
pub proof fn lemma_int_bytes_round_trip_le(v: nat, pad: nat)
    ensures
        le_val(be_bytes_of(v).reverse() + Seq::new(pad, |i: int| 0u8)) == v,
{
    lemma_be_bytes_of_val(v);
    lemma_le_val_reverse(be_bytes_of(v).reverse());
    assert(be_bytes_of(v).reverse().reverse() =~= be_bytes_of(v));
    lemma_le_val_append_zeros(be_bytes_of(v).reverse(), pad);
}

/// The canonical magnitude has exactly `byte_len` digits.
pub proof fn lemma_byte_len_be(s: Seq<u8>)
    requires
        s.len() > 0 ==> s[0] != 0,
    ensures
        byte_len(be_val(s)) == s.len(),
    decreases s.len(),
{
    if s.len() > 0 {
        let d = s.drop_last();
        lemma_be_val_lower(s);
        lemma_pow256_mono(0, (s.len() - 1) as nat);
        assert(be_val(s) > 0);
        let q = be_val(d) as int;
        let l = s.last() as int;
        assert(be_val(s) as int == q * 256 + l);
        assert((q * 256 + l) / 256 == q) by (nonlinear_arith)
            requires
                0 <= l < 256,
                q >= 0,
        ;
        assert(d.len() > 0 ==> d[0] == s[0]);
        lemma_byte_len_be(d);
    }
}

/// Relies on num_bigint: `BigInt` addition; `from_bytes_be`/`to_bytes_be`
/// convert between a sign with big-endian magnitude and a `BigInt`.
#[verifier::external_body]
fn raw_add(an: bool, am: &Vec<u8>, bn: bool, bm: &Vec<u8>) -> (r: (bool, Vec<u8>))
    ensures
        signed_be(r.0, r.1@) == signed_be(an, am@) + signed_be(bn, bm@),
{
    let a = num_bigint::BigInt::from_bytes_be(if an { num_bigint::Sign::Minus } else { num_bigint::Sign::Plus }, am.as_slice());
    let b = num_bigint::BigInt::from_bytes_be(if bn { num_bigint::Sign::Minus } else { num_bigint::Sign::Plus }, bm.as_slice());
    let (s, m) = (a + b).to_bytes_be();
    (matches!(s, num_bigint::Sign::Minus), m)
}

/// Relies on num_bigint: `BigInt` subtraction.
#[verifier::external_body]
fn raw_sub(an: bool, am: &Vec<u8>, bn: bool, bm: &Vec<u8>) -> (r: (bool, Vec<u8>))
    ensures
        signed_be(r.0, r.1@) == signed_be(an, am@) - signed_be(bn, bm@),
{
    let a = num_bigint::BigInt::from_bytes_be(if an { num_bigint::Sign::Minus } else { num_bigint::Sign::Plus }, am.as_slice());
    let b = num_bigint::BigInt::from_bytes_be(if bn { num_bigint::Sign::Minus } else { num_bigint::Sign::Plus }, bm.as_slice());
    let (s, m) = (a - b).to_bytes_be();
    (matches!(s, num_bigint::Sign::Minus), m)
}

/// Relies on num_bigint: `BigInt` multiplication.
#[verifier::external_body]
fn raw_mul(an: bool, am: &Vec<u8>, bn: bool, bm: &Vec<u8>) -> (r: (bool, Vec<u8>))
    ensures
        signed_be(r.0, r.1@) == signed_be(an, am@) * signed_be(bn, bm@),
{
    let a = num_bigint::BigInt::from_bytes_be(if an { num_bigint::Sign::Minus } else { num_bigint::Sign::Plus }, am.as_slice());
    let b = num_bigint::BigInt::from_bytes_be(if bn { num_bigint::Sign::Minus } else { num_bigint::Sign::Plus }, bm.as_slice());
    let (s, m) = (a * b).to_bytes_be();
    (matches!(s, num_bigint::Sign::Minus), m)
}

/// Relies on num_integer's `Integer::div_mod_floor` for `BigInt`: floored
/// division, the remainder carrying the divisor's sign.
#[verifier::external_body]
fn raw_div_mod_floor(an: bool, am: &Vec<u8>, bn: bool, bm: &Vec<u8>) -> (r: (
    (bool, Vec<u8>),
    (bool, Vec<u8>),
))
    requires
        signed_be(bn, bm@) != 0,
    ensures
        signed_be(r.0.0, r.0.1@) == fdiv(signed_be(an, am@), signed_be(bn, bm@)),
        signed_be(r.1.0, r.1.1@) == fmod(signed_be(an, am@), signed_be(bn, bm@)),
{
    let a = num_bigint::BigInt::from_bytes_be(if an { num_bigint::Sign::Minus } else { num_bigint::Sign::Plus }, am.as_slice());
    let b = num_bigint::BigInt::from_bytes_be(if bn { num_bigint::Sign::Minus } else { num_bigint::Sign::Plus }, bm.as_slice());
    let (q, m) = num_integer::Integer::div_mod_floor(&a, &b);
    let (qs, qm) = q.to_bytes_be();
    let (ms, mm) = m.to_bytes_be();
    ((matches!(qs, num_bigint::Sign::Minus), qm), (matches!(ms, num_bigint::Sign::Minus), mm))
}

/// Relies on num_integer's `Integer::div_rem` for `BigInt`: truncated
/// division, the remainder carrying the dividend's sign.
#[verifier::external_body]
fn raw_div_rem(an: bool, am: &Vec<u8>, bn: bool, bm: &Vec<u8>) -> (r: (
    (bool, Vec<u8>),
    (bool, Vec<u8>),
))
    requires
        signed_be(bn, bm@) != 0,
    ensures
        signed_be(r.0.0, r.0.1@) == tquot(signed_be(an, am@), signed_be(bn, bm@)),
        signed_be(r.1.0, r.1.1@) == trem(signed_be(an, am@), signed_be(bn, bm@)),
{
    let a = num_bigint::BigInt::from_bytes_be(if an { num_bigint::Sign::Minus } else { num_bigint::Sign::Plus }, am.as_slice());
    let b = num_bigint::BigInt::from_bytes_be(if bn { num_bigint::Sign::Minus } else { num_bigint::Sign::Plus }, bm.as_slice());
    let (q, m) = num_integer::Integer::div_rem(&a, &b);
    let (qs, qm) = q.to_bytes_be();
    let (ms, mm) = m.to_bytes_be();
    ((matches!(qs, num_bigint::Sign::Minus), qm), (matches!(ms, num_bigint::Sign::Minus), mm))
}

/// Relies on num_bigint: `BigInt`'s `Ord` compares by numeric value.
#[verifier::external_body]
fn raw_lt(an: bool, am: &Vec<u8>, bn: bool, bm: &Vec<u8>) -> (r: bool)
    ensures
        r == (signed_be(an, am@) < signed_be(bn, bm@)),
{
    let a = num_bigint::BigInt::from_bytes_be(if an { num_bigint::Sign::Minus } else { num_bigint::Sign::Plus }, am.as_slice());
    let b = num_bigint::BigInt::from_bytes_be(if bn { num_bigint::Sign::Minus } else { num_bigint::Sign::Plus }, bm.as_slice());
    a < b
}

/// Byte-for-byte equality of two byte vectors.
pub fn bytes_eq(a: &Vec<u8>, b: &Vec<u8>) -> (r: bool)
    ensures
        r == (a@ == b@),
{
    if a.len() != b.len() {
        return false;
    }
    let mut i: usize = 0;
    while i < a.len()
        invariant
            i <= a@.len(),
            a@.len() == b@.len(),
            forall|j: int| 0 <= j < i ==> a@[j] == b@[j],
        decreases a@.len() - i,
    {
        if a[i] != b[i] {
            return false;
        }
        i += 1;
    }
    proof {
        assert(a@ =~= b@);
    }
    true
}

/// Strips leading zero bytes and flattens a negative zero, establishing the
/// canonical form.
pub fn normalize(neg: bool, mag: Vec<u8>) -> (r: BigNum)
    ensures
        r.wf(),
        r.val() == signed_be(neg, mag@),
{
    let ghost full = mag@;
    proof {
        assert(full.subrange(0, full.len() as int) =~= full);
    }
    let mut i: usize = 0;
    while i < mag.len() && mag[i] == 0
        invariant
            i <= full.len(),
            mag@ == full,
            be_val(full.subrange(i as int, full.len() as int)) == be_val(full),
        decreases full.len() - i,
    {
        proof {
            let cur = full.subrange(i as int, full.len() as int);
            lemma_be_val_strip(cur);
            assert(cur.subrange(1, cur.len() as int) =~= full.subrange(
                i as int + 1,
                full.len() as int,
            ));
        }
        i += 1;
    }
    let rest = vstd::slice::slice_to_vec(vstd::slice::slice_subrange(mag.as_slice(), i, mag.len()));
    proof {
        assert(rest@ =~= full.subrange(i as int, full.len() as int));
    }
    if rest.len() == 0 {
        BigNum { neg: false, mag: rest }
    } else {
        BigNum { neg, mag: rest }
    }
}

impl BigNum {
    pub fn zero() -> (r: BigNum)
        ensures
            r.wf(),
            r.val() == 0,
    {
        BigNum { neg: false, mag: Vec::new() }
    }

    pub fn from_u64(x: u64) -> (r: BigNum)
        ensures
            r.wf(),
            r.val() == x as int,
    {
        let mut digits: Vec<u8> = Vec::new();
        let mut v: u64 = x;
        proof {
            assert(le_val(digits@) == 0);
            assert(pow256(0) == 1);
            assert(x as nat * 1 == x as nat) by (nonlinear_arith);
        }
        while v > 0
            invariant
                le_val(digits@) + v as nat * pow256(digits@.len()) == x as nat,
            decreases v,
        {
            let d: u8 = (v % 256) as u8;
            proof {
                lemma_le_val_push(digits@, d);
                let p = pow256(digits@.len());
                assert((v / 256) as nat * (256 * p) == (256 * ((v / 256) as nat)) * p)
                    by (nonlinear_arith);
                assert(d as nat + 256 * ((v / 256) as nat) == v as nat);
                assert((d as nat) * p + (256 * ((v / 256) as nat)) * p == (d as nat + 256 * ((v
                    / 256) as nat)) * p) by (nonlinear_arith);
            }
            digits.push(d);
            v = v / 256;
        }
        let mut mag: Vec<u8> = Vec::new();
        let mut j: usize = digits.len();
        while j > 0
            invariant
                j <= digits@.len(),
                mag@.len() == digits@.len() - j,
                forall|k: int| 0 <= k < mag@.len() ==> mag@[k] == digits@[digits@.len() - 1 - k],
            decreases j,
        {
            j -= 1;
            mag.push(digits[j]);
        }
        proof {
            assert(mag@ =~= digits@.reverse());
            lemma_le_val_reverse(digits@);
            assert(le_val(digits@) == x as nat);
        }
        normalize(false, mag)
    }

    pub fn from_i64(x: i64) -> (r: BigNum)
        ensures
            r.wf(),
            r.val() == x as int,
    {
        if x >= 0 {
            Self::from_u64(x as u64)
        } else {
            let m = Self::from_u64((-(x as i128)) as u64);
            proof {
                if m.mag@.len() == 0 {
                    assert(m.val() == 0);
                }
            }
            BigNum { neg: true, mag: m.mag }
        }
    }

    pub fn is_zero(&self) -> (r: bool)
        requires
            self.wf(),
        ensures
            r == (self.val() == 0),
    {
        proof {
            if self.mag@.len() > 0 {
                lemma_be_val_lower(self.mag@);
                lemma_pow256_mono(0, (self.mag@.len() - 1) as nat);
            }
        }
        self.mag.len() == 0
    }

    pub fn is_negative(&self) -> (r: bool)
        requires
            self.wf(),
        ensures
            r == (self.val() < 0),
    {
        proof {
            if self.mag@.len() > 0 {
                lemma_be_val_lower(self.mag@);
                lemma_pow256_mono(0, (self.mag@.len() - 1) as nat);
            }
        }
        self.neg
    }

    pub fn clone_num(&self) -> (r: BigNum)
        ensures
            r.neg == self.neg,
            r.mag@ == self.mag@,
            r.wf() == self.wf(),
            r.val() == self.val(),
    {
        let m = vstd::slice::slice_to_vec(self.mag.as_slice());
        proof {
            assert(m@ =~= self.mag@);
        }
        BigNum { neg: self.neg, mag: m }
    }

    pub fn plus(&self, other: &BigNum) -> (r: BigNum)
        ensures
            r.wf(),
            r.val() == self.val() + other.val(),
    {
        let t = raw_add(self.neg, &self.mag, other.neg, &other.mag);
        normalize(t.0, t.1)
    }

    pub fn minus(&self, other: &BigNum) -> (r: BigNum)
        ensures
            r.wf(),
            r.val() == self.val() - other.val(),
    {
        let t = raw_sub(self.neg, &self.mag, other.neg, &other.mag);
        normalize(t.0, t.1)
    }

    pub fn times(&self, other: &BigNum) -> (r: BigNum)
        ensures
            r.wf(),
            r.val() == self.val() * other.val(),
    {
        let t = raw_mul(self.neg, &self.mag, other.neg, &other.mag);
        normalize(t.0, t.1)
    }

    /// Floored division and modulus, as a pair.
    pub fn div_mod_floor(&self, other: &BigNum) -> (r: (BigNum, BigNum))
        requires
            other.val() != 0,
        ensures
            r.0.wf(),
            r.1.wf(),
            r.0.val() == fdiv(self.val(), other.val()),
            r.1.val() == fmod(self.val(), other.val()),
    {
        let t = raw_div_mod_floor(self.neg, &self.mag, other.neg, &other.mag);
        let ((qs, qm), (ms, mm)) = t;
        (normalize(qs, qm), normalize(ms, mm))
    }

    /// Truncated division and remainder, as a pair.
    pub fn div_rem(&self, other: &BigNum) -> (r: (BigNum, BigNum))
        requires
            other.val() != 0,
        ensures
            r.0.wf(),
            r.1.wf(),
            r.0.val() == tquot(self.val(), other.val()),
            r.1.val() == trem(self.val(), other.val()),
    {
        let t = raw_div_rem(self.neg, &self.mag, other.neg, &other.mag);
        let ((qs, qm), (ms, mm)) = t;
        (normalize(qs, qm), normalize(ms, mm))
    }

    pub fn lt(&self, other: &BigNum) -> (r: bool)
        ensures
            r == (self.val() < other.val()),
    {
        raw_lt(self.neg, &self.mag, other.neg, &other.mag)
    }

    pub fn le(&self, other: &BigNum) -> (r: bool)
        ensures
            r == (self.val() <= other.val()),
    {
        !raw_lt(other.neg, &other.mag, self.neg, &self.mag)
    }

    pub fn eq_val(&self, other: &BigNum) -> (r: bool)
        requires
            self.wf(),
            other.wf(),
        ensures
            r == (self.val() == other.val()),
    {
        proof {
            if self.neg == other.neg && self.mag@ == other.mag@ {
                assert(self.val() == other.val());
            }
            if self.val() == other.val() {
                lemma_bignum_unique(*self, *other);
            }
        }
        if self.neg != other.neg {
            false
        } else {
            bytes_eq(&self.mag, &other.mag)
        }
    }

    pub fn to_u128_opt(&self) -> (r: Option<u128>)
        requires
            self.wf(),
        ensures
            match r {
                Some(x) => self.val() == x as int,
                None => self.val() < 0 || self.val() > u128::MAX as int,
            },
    {
        proof {
            if self.mag@.len() > 0 {
                lemma_be_val_lower(self.mag@);
                lemma_pow256_mono(0, (self.mag@.len() - 1) as nat);
            }
        }
        if self.neg {
            return None;
        }
        if self.mag.len() > 16 {
            proof {
                lemma_be_val_lower(self.mag@);
                lemma_pow256_mono(16, (self.mag@.len() - 1) as nat);
                reveal_with_fuel(pow256, 17);
            }
            return None;
        }
        let mut acc: u128 = 0;
        let mut i: usize = 0;
        proof {
            reveal_with_fuel(pow256, 17);
        }
        while i < self.mag.len()
            invariant
                i <= self.mag@.len() <= 16,
                acc as nat == be_val(self.mag@.subrange(0, i as int)),
            decreases self.mag@.len() - i,
        {
            proof {
                lemma_be_val_bound(self.mag@.subrange(0, i as int));
                lemma_pow256_mono(i as nat, 15);
                reveal_with_fuel(pow256, 17);
                assert(self.mag@.subrange(0, i as int + 1).drop_last() =~= self.mag@.subrange(
                    0,
                    i as int,
                ));
            }
            acc = acc * 256 + self.mag[i] as u128;
            i += 1;
        }
        proof {
            assert(self.mag@.subrange(0, self.mag@.len() as int) =~= self.mag@);
        }
        Some(acc)
    }

    /// Ex-memory size of this integer, as the cost model measures it.
    pub fn ex_mem(&self) -> (r: i64)
        requires
            self.wf(),
        ensures
            r == int_ex_mem(self.val()),
            r >= 1,
    {
        proof {
            if self.mag@.len() > 0 {
                lemma_be_val_lower(self.mag@);
                lemma_pow256_mono(0, (self.mag@.len() - 1) as nat);
            }
            lemma_byte_len_be(self.mag@);
        }
        if self.mag.len() == 0 {
            1
        } else {
            (((self.mag.len() - 1) / 8) + 1) as i64
        }
    }

    pub fn to_u64_opt(&self) -> (r: Option<u64>)
        requires
            self.wf(),
        ensures
            match r {
                Some(x) => self.val() == x as int,
                None => self.val() < 0 || self.val() > u64::MAX as int,
            },
    {
        proof {
            if self.mag@.len() > 0 {
                lemma_be_val_lower(self.mag@);
                lemma_pow256_mono(0, (self.mag@.len() - 1) as nat);
            }
        }
        if self.neg {
            return None;
        }
        if self.mag.len() > 8 {
            proof {
                lemma_be_val_lower(self.mag@);
                lemma_pow256_mono(8, (self.mag@.len() - 1) as nat);
                reveal_with_fuel(pow256, 9);
            }
            return None;
        }
        let mut acc: u64 = 0;
        let mut i: usize = 0;
        proof {
            reveal_with_fuel(pow256, 9);
        }
        while i < self.mag.len()
            invariant
                i <= self.mag@.len() <= 8,
                acc as nat == be_val(self.mag@.subrange(0, i as int)),
            decreases self.mag@.len() - i,
        {
            proof {
                lemma_be_val_bound(self.mag@.subrange(0, i as int));
                lemma_pow256_mono(i as nat, 7);
                reveal_with_fuel(pow256, 9);
                assert(self.mag@.subrange(0, i as int + 1).drop_last() =~= self.mag@.subrange(
                    0,
                    i as int,
                ));
            }
            acc = acc * 256 + self.mag[i] as u64;
            i += 1;
        }
        proof {
            assert(self.mag@.subrange(0, self.mag@.len() as int) =~= self.mag@);
        }
        Some(acc)
    }
}

} // verus!
